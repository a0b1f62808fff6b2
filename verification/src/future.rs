//! Plaintext values, futures and the arguments of futures: their shapes, their equality,
//! their copies, and the lookup of a value inside a future along a path of accesses.
//!
//! A literal is held by its type and the bytes of its value: the lookup and the
//! equality read nothing more of it.
use vstd::prelude::*;

use crate::dynamic::{DynamicFuture, DynamicFutureView};
use crate::error::Error;
use crate::literal_type::{bytes_equal, LiteralType};
use crate::program_names::{Identifier, ProgramID, ProgramIdView};

verus! {

/// A plaintext value, in terms of the views of its parts.
pub enum PlaintextView {
    Literal(LiteralType, Seq<u8>),
    Struct(Seq<(Seq<u8>, PlaintextView)>),
    Array(Seq<PlaintextView>),
}

/// A member of a struct value.
pub struct Member {
    /// The member's name.
    pub name: Identifier,
    /// The member's value.
    pub value: Plaintext,
}

/// A plaintext value.
pub enum Plaintext {
    /// A literal: its type and the bytes of its value.
    Literal(LiteralType, Vec<u8>),
    /// A struct: its members, in order.
    Struct(Vec<Member>),
    /// An array: its elements, in order.
    Array(Vec<Plaintext>),
}

/// The views of the members of a struct value: each name with the view of its value.
pub open spec fn members_view(m: Seq<Member>) -> Seq<(Seq<u8>, PlaintextView)>
    decreases m,
{
    Seq::new(
        m.len(),
        |i: int|
            if 0 <= i < m.len() {
                (m[i].name@, plaintext_view(m[i].value))
            } else {
                (Seq::empty(), PlaintextView::Array(Seq::empty()))
            },
    )
}

/// The views of the elements of an array value.
pub open spec fn elements_view(a: Seq<Plaintext>) -> Seq<PlaintextView>
    decreases a,
{
    Seq::new(
        a.len(),
        |i: int|
            if 0 <= i < a.len() {
                plaintext_view(a[i])
            } else {
                PlaintextView::Array(Seq::empty())
            },
    )
}

/// The view of a plaintext value.
pub open spec fn plaintext_view(p: Plaintext) -> PlaintextView
    decreases p,
{
    match p {
        Plaintext::Literal(t, b) => PlaintextView::Literal(t, b@),
        Plaintext::Struct(m) => PlaintextView::Struct(members_view(m@)),
        Plaintext::Array(a) => PlaintextView::Array(elements_view(a@)),
    }
}

impl View for Plaintext {
    type V = PlaintextView;

    open spec fn view(&self) -> PlaintextView {
        plaintext_view(*self)
    }
}

/// A future, in terms of the views of its parts.
pub struct FutureView {
    pub program_id: ProgramIdView,
    pub function_name: Seq<u8>,
    pub arguments: Seq<ArgumentView>,
}

/// An argument of a future, in terms of the views of its parts; also what a lookup in a
/// future finds.
pub enum ArgumentView {
    Plaintext(PlaintextView),
    Future(FutureView),
    DynamicFuture(DynamicFutureView),
}

/// A future: the program and function whose finalize logic it awaits, and the arguments.
pub struct Future {
    /// The program of the function.
    pub program_id: ProgramID,
    /// The function's name.
    pub function_name: Identifier,
    /// The arguments of the function's finalize logic.
    pub arguments: Vec<Argument>,
}

/// An argument passed into a future.
pub enum Argument {
    /// A plaintext value.
    Plaintext(Plaintext),
    /// A future.
    Future(Future),
    /// A dynamic future.
    DynamicFuture(DynamicFuture),
}

/// The views of the arguments of a future.
pub open spec fn arguments_view(a: Seq<Argument>) -> Seq<ArgumentView>
    decreases a,
{
    Seq::new(
        a.len(),
        |i: int|
            if 0 <= i < a.len() {
                argument_view(a[i])
            } else {
                ArgumentView::Plaintext(PlaintextView::Array(Seq::empty()))
            },
    )
}

/// The view of a future.
pub open spec fn future_view(f: Future) -> FutureView
    decreases f,
{
    FutureView {
        program_id: f.program_id@,
        function_name: f.function_name@,
        arguments: arguments_view(f.arguments@),
    }
}

/// The view of an argument.
pub open spec fn argument_view(a: Argument) -> ArgumentView
    decreases a,
{
    match a {
        Argument::Plaintext(p) => ArgumentView::Plaintext(plaintext_view(p)),
        Argument::Future(f) => ArgumentView::Future(future_view(f)),
        Argument::DynamicFuture(d) => ArgumentView::DynamicFuture(d@),
    }
}

impl View for Future {
    type V = FutureView;

    open spec fn view(&self) -> FutureView {
        future_view(*self)
    }
}

impl View for Argument {
    type V = ArgumentView;

    open spec fn view(&self) -> ArgumentView {
        argument_view(*self)
    }
}

/// A value found in a future: a plaintext value, a future or a dynamic future.
pub enum Value {
    Plaintext(Plaintext),
    Future(Future),
    DynamicFuture(DynamicFuture),
}

impl View for Value {
    type V = ArgumentView;

    open spec fn view(&self) -> ArgumentView {
        match *self {
            Value::Plaintext(p) => ArgumentView::Plaintext(p@),
            Value::Future(f) => ArgumentView::Future(f@),
            Value::DynamicFuture(d) => ArgumentView::DynamicFuture(d@),
        }
    }
}

/// One step of a path into a value.
pub enum AccessView {
    Member(Seq<u8>),
    Index(u32),
}

/// One step of a path into a value: a struct member by name, or an array element or a
/// future's argument by index.
pub enum Access {
    Member(Identifier),
    Index(u32),
}

impl View for Access {
    type V = AccessView;

    open spec fn view(&self) -> AccessView {
        match *self {
            Access::Member(n) => AccessView::Member(n@),
            Access::Index(i) => AccessView::Index(i),
        }
    }
}

/// The views of the steps of a path.
pub open spec fn path_view(path: Seq<Access>) -> Seq<AccessView> {
    Seq::new(path.len(), |i: int| path[i]@)
}

/// The position of the first member named `name`, at or after `i`.
pub open spec fn member_position_from(ms: Seq<(Seq<u8>, PlaintextView)>, name: Seq<u8>, i: int) -> Option<int>
    decreases ms.len() - i,
{
    if i < 0 || i >= ms.len() {
        None
    } else if ms[i].0 == name {
        Some(i)
    } else {
        member_position_from(ms, name, i + 1)
    }
}

/// What one step of a path reaches from `cur`: a struct's member by name, an array's
/// element or a future's argument by index; a missing member or an index out of bounds
/// is not found; any other step, such as one into a literal or a dynamic future, is
/// refused.
pub open spec fn access_step(cur: ArgumentView, a: AccessView) -> Result<ArgumentView, Error> {
    match (cur, a) {
        (ArgumentView::Plaintext(PlaintextView::Struct(ms)), AccessView::Member(n)) => match member_position_from(
            ms,
            n,
            0,
        ) {
            Some(i) => Ok(ArgumentView::Plaintext(ms[i].1)),
            None => Err(Error::NotFound),
        },
        (ArgumentView::Plaintext(PlaintextView::Array(es)), AccessView::Index(k)) => if k < es.len() {
            Ok(ArgumentView::Plaintext(es[k as int]))
        } else {
            Err(Error::NotFound)
        },
        (ArgumentView::Future(f), AccessView::Index(k)) => if k < f.arguments.len() {
            Ok(f.arguments[k as int])
        } else {
            Err(Error::NotFound)
        },
        _ => Err(Error::InvalidVariant),
    }
}

/// What following `path` from `cur` reaches.
pub open spec fn find_from(cur: ArgumentView, path: Seq<AccessView>) -> Result<ArgumentView, Error>
    decreases path.len(),
{
    if path.len() == 0 {
        Ok(cur)
    } else {
        match access_step(cur, path[0]) {
            Ok(next) => find_from(next, path.drop_first()),
            Err(e) => Err(e),
        }
    }
}

/// What a lookup in the future `f` along `path` gives: an empty path is refused.
pub open spec fn spec_find(f: FutureView, path: Seq<AccessView>) -> Result<ArgumentView, Error> {
    if path.len() == 0 {
        Err(Error::Missing)
    } else {
        find_from(ArgumentView::Future(f), path)
    }
}

/// Following `p` then `q` reaches what following `p + q` reaches.
pub proof fn lemma_find_from_concat(cur: ArgumentView, p: Seq<AccessView>, q: Seq<AccessView>)
    ensures
        find_from(cur, p + q) == match find_from(cur, p) {
            Ok(mid) => find_from(mid, q),
            Err(e) => Err(e),
        },
    decreases p.len(),
{
    if p.len() > 0 {
        assert((p + q)[0] == p[0]);
        assert((p + q).drop_first() =~= p.drop_first() + q);
        if let Ok(next) = access_step(cur, p[0]) {
            lemma_find_from_concat(next, p.drop_first(), q);
        }
    } else {
        assert(p + q =~= q);
    }
}

/// A lookup in a future along a path made of two paths looks up the second in what the
/// first finds.
pub proof fn lemma_find_compose(f: FutureView, p: Seq<AccessView>, q: Seq<AccessView>)
    requires
        p.len() > 0,
    ensures
        spec_find(f, p + q) == match spec_find(f, p) {
            Ok(mid) => find_from(mid, q),
            Err(e) => Err(e),
        },
{
    lemma_find_from_concat(ArgumentView::Future(f), p, q);
}

/// A dynamic future is opaque: no step leads into it.
pub proof fn lemma_dynamic_future_is_opaque(d: DynamicFutureView, path: Seq<AccessView>)
    requires
        path.len() > 0,
    ensures
        find_from(ArgumentView::DynamicFuture(d), path) == Err::<ArgumentView, Error>(Error::InvalidVariant),
{
}

/// A lookup of the `i`-th argument of a future finds that argument.
pub proof fn lemma_find_argument(f: FutureView, i: u32)
    requires
        i < f.arguments.len(),
    ensures
        spec_find(f, seq![AccessView::Index(i)]) == Ok::<ArgumentView, Error>(f.arguments[i as int]),
{
    let path = seq![AccessView::Index(i)];
    assert(path.drop_first() =~= Seq::<AccessView>::empty());
    reveal_with_fuel(find_from, 2);
}

impl Plaintext {
    /// A copy of the value.
    pub fn clone_value(&self) -> (r: Plaintext)
        ensures
            r@ == self@,
        decreases self,
    {
        match self {
            Plaintext::Literal(t, b) => Plaintext::Literal(*t, b.clone()),
            Plaintext::Array(a) => {
                let mut v: Vec<Plaintext> = Vec::new();
                let mut i: usize = 0;
                while i < a.len()
                    invariant
                        i <= a@.len(),
                        *self == Plaintext::Array(*a),
                        v@.len() == i,
                        forall|j: int| 0 <= j < i ==> plaintext_view(#[trigger] v@[j]) == plaintext_view(a@[j]),
                    decreases a@.len() - i,
                {
                    proof {
                        assert(decreases_to!(*self => (*self)->Array_0));
                        assert(decreases_to!(*a => a@));
                        assert(decreases_to!(a@ => a@[i as int]));
                    }
                    let c = a[i].clone_value();
                    v.push(c);
                    i = i + 1;
                }
                assert(elements_view(v@) =~= elements_view(a@));
                Plaintext::Array(v)
            },
            Plaintext::Struct(m) => {
                let mut v: Vec<Member> = Vec::new();
                let mut i: usize = 0;
                while i < m.len()
                    invariant
                        i <= m@.len(),
                        *self == Plaintext::Struct(*m),
                        v@.len() == i,
                        forall|j: int|
                            0 <= j < i ==> plaintext_view(#[trigger] v@[j].value) == plaintext_view(m@[j].value)
                                && v@[j].name@ == m@[j].name@,
                    decreases m@.len() - i,
                {
                    proof {
                        assert(decreases_to!(*self => (*self)->Struct_0));
                        assert(decreases_to!(*m => m@));
                        assert(decreases_to!(m@ => m@[i as int]));
                        assert(decreases_to!(m@[i as int] => m@[i as int].value));
                    }
                    let value = m[i].value.clone_value();
                    let name = m[i].name.clone();
                    v.push(Member { name, value });
                    i = i + 1;
                }
                assert(members_view(v@) =~= members_view(m@));
                Plaintext::Struct(v)
            },
        }
    }

    /// Whether two plaintext values are equal: literals of the same type and value,
    /// structs with the same members in the same order, or arrays with the same elements.
    pub fn is_equal(&self, other: &Plaintext) -> (r: bool)
        ensures
            r == (self@ == other@),
        decreases self,
    {
        match (self, other) {
            (Plaintext::Literal(t1, b1), Plaintext::Literal(t2, b2)) => *t1 == *t2 && bytes_equal(
                b1.as_slice(),
                b2.as_slice(),
            ),
            (Plaintext::Array(a1), Plaintext::Array(a2)) => {
                if a1.len() != a2.len() {
                    proof {
                        assert(elements_view(a1@).len() != elements_view(a2@).len());
                    }
                    return false;
                }
                let mut i: usize = 0;
                while i < a1.len()
                    invariant
                        i <= a1@.len(),
                        a1@.len() == a2@.len(),
                        *self == Plaintext::Array(*a1),
                        *other == Plaintext::Array(*a2),
                        forall|j: int| 0 <= j < i ==> plaintext_view(#[trigger] a1@[j]) == plaintext_view(a2@[j]),
                    decreases a1@.len() - i,
                {
                    proof {
                        assert(decreases_to!(*self => (*self)->Array_0));
                        assert(decreases_to!(*a1 => a1@));
                        assert(decreases_to!(a1@ => a1@[i as int]));
                    }
                    if !a1[i].is_equal(&a2[i]) {
                        proof {
                            assert(elements_view(a1@)[i as int] != elements_view(a2@)[i as int]);
                        }
                        return false;
                    }
                    i = i + 1;
                }
                assert(elements_view(a1@) =~= elements_view(a2@));
                true
            },
            (Plaintext::Struct(m1), Plaintext::Struct(m2)) => {
                if m1.len() != m2.len() {
                    proof {
                        assert(members_view(m1@).len() != members_view(m2@).len());
                    }
                    return false;
                }
                let mut i: usize = 0;
                while i < m1.len()
                    invariant
                        i <= m1@.len(),
                        m1@.len() == m2@.len(),
                        *self == Plaintext::Struct(*m1),
                        *other == Plaintext::Struct(*m2),
                        forall|j: int|
                            0 <= j < i ==> plaintext_view(#[trigger] m1@[j].value) == plaintext_view(m2@[j].value)
                                && m1@[j].name@ == m2@[j].name@,
                    decreases m1@.len() - i,
                {
                    proof {
                        assert(decreases_to!(*self => (*self)->Struct_0));
                        assert(decreases_to!(*m1 => m1@));
                        assert(decreases_to!(m1@ => m1@[i as int]));
                        assert(decreases_to!(m1@[i as int] => m1@[i as int].value));
                    }
                    if !m1[i].name.is_equal(&m2[i].name) || !m1[i].value.is_equal(&m2[i].value) {
                        proof {
                            assert(members_view(m1@)[i as int] != members_view(m2@)[i as int]);
                        }
                        return false;
                    }
                    i = i + 1;
                }
                assert(members_view(m1@) =~= members_view(m2@));
                true
            },
            _ => false,
        }
    }

    /// Whether two plaintext values differ.
    pub fn is_not_equal(&self, other: &Plaintext) -> (r: bool)
        ensures
            r == (self@ != other@),
    {
        !self.is_equal(other)
    }
}

impl Future {
    /// A future of the function `function_name` of `program_id`, with its arguments.
    pub fn new(program_id: ProgramID, function_name: Identifier, arguments: Vec<Argument>) -> (r: Future)
        ensures
            r.program_id == program_id,
            r.function_name == function_name,
            r.arguments == arguments,
    {
        Future { program_id, function_name, arguments }
    }

    /// The program of the future's function.
    pub fn program_id(&self) -> (r: &ProgramID)
        ensures
            *r == self.program_id,
    {
        &self.program_id
    }

    /// The name of the future's function.
    pub fn function_name(&self) -> (r: &Identifier)
        ensures
            *r == self.function_name,
    {
        &self.function_name
    }

    /// The future's arguments.
    pub fn arguments(&self) -> (r: &Vec<Argument>)
        ensures
            *r == self.arguments,
    {
        &self.arguments
    }

    /// A copy of the future.
    pub fn clone_value(&self) -> (r: Future)
        ensures
            r@ == self@,
        decreases self,
    {
        let a = &self.arguments;
        let mut v: Vec<Argument> = Vec::new();
        let mut i: usize = 0;
        while i < a.len()
            invariant
                i <= a@.len(),
                *a == self.arguments,
                v@.len() == i,
                forall|j: int| 0 <= j < i ==> argument_view(#[trigger] v@[j]) == argument_view(a@[j]),
            decreases a@.len() - i,
        {
            proof {
                assert(decreases_to!(*self => self.arguments));
                assert(decreases_to!(self.arguments => self.arguments@));
                assert(decreases_to!(self.arguments@ => self.arguments@[i as int]));
            }
            let c = a[i].clone_value();
            v.push(c);
            i = i + 1;
        }
        assert(arguments_view(v@) =~= arguments_view(a@));
        Future { program_id: self.program_id.clone(), function_name: self.function_name.clone(), arguments: v }
    }

    /// Whether two futures are equal: the same program, function and arguments.
    pub fn is_equal(&self, other: &Future) -> (r: bool)
        ensures
            r == (self@ == other@),
        decreases self,
    {
        if !self.program_id.is_equal(&other.program_id) || !self.function_name.is_equal(&other.function_name) {
            return false;
        }
        let a1 = &self.arguments;
        let a2 = &other.arguments;
        if a1.len() != a2.len() {
            proof {
                assert(arguments_view(a1@).len() != arguments_view(a2@).len());
            }
            return false;
        }
        let mut i: usize = 0;
        while i < a1.len()
            invariant
                i <= a1@.len(),
                a1@.len() == a2@.len(),
                *a1 == self.arguments,
                *a2 == other.arguments,
                forall|j: int| 0 <= j < i ==> argument_view(#[trigger] a1@[j]) == argument_view(a2@[j]),
            decreases a1@.len() - i,
        {
            proof {
                assert(decreases_to!(*self => self.arguments));
                assert(decreases_to!(self.arguments => self.arguments@));
                assert(decreases_to!(self.arguments@ => self.arguments@[i as int]));
            }
            if !a1[i].is_equal(&a2[i]) {
                proof {
                    assert(arguments_view(a1@)[i as int] != arguments_view(a2@)[i as int]);
                }
                return false;
            }
            i = i + 1;
        }
        assert(arguments_view(a1@) =~= arguments_view(a2@));
        true
    }

    /// Whether two futures differ.
    pub fn is_not_equal(&self, other: &Future) -> (r: bool)
        ensures
            r == (self@ != other@),
    {
        !self.is_equal(other)
    }
}

impl Argument {
    /// A copy of the argument.
    pub fn clone_value(&self) -> (r: Argument)
        ensures
            r@ == self@,
        decreases self,
    {
        match self {
            Argument::Plaintext(p) => Argument::Plaintext(p.clone_value()),
            Argument::Future(f) => {
                proof {
                    assert(decreases_to!(*self => (*self)->Future_0));
                }
                Argument::Future(f.clone_value())
            },
            Argument::DynamicFuture(d) => Argument::DynamicFuture(*d),
        }
    }

    /// Whether two arguments are equal: of the same kind, with equal values.
    pub fn is_equal(&self, other: &Argument) -> (r: bool)
        ensures
            r == (self@ == other@),
        decreases self,
    {
        match (self, other) {
            (Argument::Plaintext(a), Argument::Plaintext(b)) => a.is_equal(b),
            (Argument::Future(a), Argument::Future(b)) => {
                proof {
                    assert(decreases_to!(*self => (*self)->Future_0));
                }
                a.is_equal(b)
            },
            (Argument::DynamicFuture(a), Argument::DynamicFuture(b)) => a.is_equal(b),
            _ => false,
        }
    }

    /// Whether two arguments differ: of different kinds, or with different values.
    pub fn is_not_equal(&self, other: &Argument) -> (r: bool)
        ensures
            r == (self@ != other@),
    {
        !self.is_equal(other)
    }
}

/// Where a lookup stands inside a future.
enum Cursor<'a> {
    Plaintext(&'a Plaintext),
    Future(&'a Future),
    DynamicFuture(&'a DynamicFuture),
}

/// What a lookup stands at.
spec fn cursor_view(c: Cursor) -> ArgumentView {
    match c {
        Cursor::Plaintext(p) => ArgumentView::Plaintext(p@),
        Cursor::Future(f) => ArgumentView::Future(f@),
        Cursor::DynamicFuture(d) => ArgumentView::DynamicFuture(d@),
    }
}

/// The position of the first member named `name`, if there is one.
fn member_position(ms: &Vec<Member>, name: &Identifier) -> (r: Option<usize>)
    ensures
        match r {
            Some(i) => member_position_from(members_view(ms@), name@, 0) == Some(i as int) && i < ms@.len(),
            None => member_position_from(members_view(ms@), name@, 0) is None,
        },
{
    let ghost mv = members_view(ms@);
    let mut i: usize = 0;
    while i < ms.len()
        invariant
            i <= ms@.len(),
            mv == members_view(ms@),
            member_position_from(mv, name@, 0) == member_position_from(mv, name@, i as int),
        decreases ms@.len() - i,
    {
        if ms[i].name.is_equal(name) {
            return Some(i);
        }
        i = i + 1;
    }
    None
}

/// The argument, element or member that one step reaches from `cur`.
fn step<'a>(cur: Cursor<'a>, a: &Access) -> (r: Result<Cursor<'a>, Error>)
    ensures
        match r {
            Ok(next) => access_step(cursor_view(cur), a@) == Ok::<ArgumentView, Error>(cursor_view(next)),
            Err(e) => access_step(cursor_view(cur), a@) == Err::<ArgumentView, Error>(e),
        },
{
    match (cur, a) {
        (Cursor::Plaintext(Plaintext::Struct(ms)), Access::Member(n)) => match member_position(ms, n) {
            Some(i) => Ok(Cursor::Plaintext(&ms[i].value)),
            None => Err(Error::NotFound),
        },
        (Cursor::Plaintext(Plaintext::Array(es)), Access::Index(k)) => {
            if (*k as usize) < es.len() {
                Ok(Cursor::Plaintext(&es[*k as usize]))
            } else {
                Err(Error::NotFound)
            }
        },
        (Cursor::Future(f), Access::Index(k)) => {
            if (*k as usize) < f.arguments.len() {
                match &f.arguments[*k as usize] {
                    Argument::Plaintext(p) => Ok(Cursor::Plaintext(p)),
                    Argument::Future(g) => Ok(Cursor::Future(g)),
                    Argument::DynamicFuture(d) => Ok(Cursor::DynamicFuture(d)),
                }
            } else {
                Err(Error::NotFound)
            }
        },
        _ => Err(Error::InvalidVariant),
    }
}

impl Future {
    /// The value found along `path`: each step takes a struct's member by name, or an
    /// array's element or a future's argument by index. An empty path is refused
    /// (`Missing`); a missing member or an index out of bounds is not found (`NotFound`);
    /// a step of the wrong kind, or into a literal or a dynamic future, is refused
    /// (`InvalidVariant`).
    pub fn find(&self, path: &[Access]) -> (r: Result<Value, Error>)
        ensures
            match r {
                Ok(v) => spec_find(self@, path_view(path@)) == Ok::<ArgumentView, Error>(v@),
                Err(e) => spec_find(self@, path_view(path@)) == Err::<ArgumentView, Error>(e),
            },
    {
        if path.len() == 0 {
            return Err(Error::Missing);
        }
        let ghost pv = path_view(path@);
        let mut cur = Cursor::Future(self);
        let mut i: usize = 0;
        assert(pv.subrange(0, pv.len() as int) =~= pv);
        while i < path.len()
            invariant
                i <= path@.len(),
                pv == path_view(path@),
                pv.len() == path@.len(),
                find_from(cursor_view(cur), pv.subrange(i as int, pv.len() as int)) == find_from(
                    ArgumentView::Future(self@),
                    pv,
                ),
            decreases path@.len() - i,
        {
            let ghost rest = pv.subrange(i as int, pv.len() as int);
            assert(rest[0] == path@[i as int]@);
            assert(rest.drop_first() =~= pv.subrange(i + 1, pv.len() as int));
            match step(cur, &path[i]) {
                Ok(next) => {
                    cur = next;
                },
                Err(e) => {
                    return Err(e);
                },
            }
            i = i + 1;
        }
        assert(pv.subrange(i as int, pv.len() as int) =~= Seq::<AccessView>::empty());
        match cur {
            Cursor::Plaintext(p) => Ok(Value::Plaintext(p.clone_value())),
            Cursor::Future(f) => Ok(Value::Future(f.clone_value())),
            Cursor::DynamicFuture(d) => Ok(Value::DynamicFuture(*d)),
        }
    }
}

} // verus!
