//! The symbol table: a stack of lexical scopes, innermost last, each mapping
//! the names declared in it to what they stand for.

use vstd::prelude::*;
use crate::ast::FuncType;
use crate::error::SemanticError;
use crate::ir::Value;

verus! {

/// The shape of a parameter: a number, or an array whose first dimension is
/// open and whose other dimensions are `dims`.
#[derive(Debug, PartialEq, Eq)]
pub struct ParamShape {
    pub is_array: bool,
    pub dims: Vec<i64>,
}

/// How an array or a number lies in memory: where it is stored, and for
/// an array how many cells lie between two neighbours along each index.
#[derive(Debug, PartialEq, Eq)]
pub struct Layout {
    pub slot: Value,
    pub strides: Vec<i64>,
}

/// What a name stands for.
#[derive(Debug, PartialEq, Eq)]
pub enum Binding {
    /// A constant number.
    Const(i64),
    /// A constant array: its dimensions, its elements in row-major order, and
    /// how it lies in memory.
    ConstArray(Vec<i64>, Vec<i64>, Layout),
    /// A variable with its dimensions, none for a number, and how it lies in
    /// memory.
    Var(Vec<i64>, Layout),
    /// An array parameter: its dimensions after the first, which is open,
    /// and how it lies in memory; the slot holds the address of the first
    /// element.
    Ptr(Vec<i64>, Layout),
    /// A function: what it returns and the shapes of its parameters.
    Func(FuncType, Vec<ParamShape>),
}

/// A parameter's shape, as the rules of the language see it.
pub struct ParamSym {
    pub is_array: bool,
    pub dims: Seq<i64>,
}

/// What a name stands for, as the rules of the language see it: a binding
/// without the place where it is stored.
pub enum Sym {
    Const(i64),
    ConstArray(Seq<i64>, Seq<i64>),
    Var(Seq<i64>),
    Ptr(Seq<i64>),
    Func(FuncType, Seq<ParamSym>),
}

impl View for ParamShape {
    type V = ParamSym;

    open spec fn view(&self) -> ParamSym {
        ParamSym { is_array: self.is_array, dims: self.dims@ }
    }
}

/// What a name stands for together with how it lies in memory: where it
/// is stored and the strides of its indices. A constant number has its
/// value for a slot; a function has none of its own.
pub struct Placed {
    pub sym: Sym,
    pub slot: Value,
    pub strides: Seq<i64>,
}

/// The shapes of parameters, as the rules of the language see them.
pub open spec fn shapes_view(params: Seq<ParamShape>) -> Seq<ParamSym> {
    Seq::new(params.len(), |i: int| params[i]@)
}

impl View for Binding {
    type V = Sym;

    open spec fn view(&self) -> Sym {
        match self {
            Binding::Const(v) => Sym::Const(*v),
            Binding::ConstArray(dims, values, _) => Sym::ConstArray(dims@, values@),
            Binding::Var(dims, _) => Sym::Var(dims@),
            Binding::Ptr(dims, _) => Sym::Ptr(dims@),
            Binding::Func(ret, params) => Sym::Func(*ret, shapes_view(params@)),
        }
    }
}

impl Binding {
    /// The binding with how it lies in memory.
    pub open spec fn placed(&self) -> Placed {
        match self {
            Binding::Const(v) => Placed {
                sym: self@,
                slot: Value::Const(*v),
                strides: Seq::empty(),
            },
            Binding::ConstArray(_, _, layout) => Placed {
                sym: self@,
                slot: layout.slot,
                strides: layout.strides@,
            },
            Binding::Var(_, layout) => Placed {
                sym: self@,
                slot: layout.slot,
                strides: layout.strides@,
            },
            Binding::Ptr(_, layout) => Placed {
                sym: self@,
                slot: layout.slot,
                strides: layout.strides@,
            },
            Binding::Func(_, _) => Placed {
                sym: self@,
                slot: Value::Const(0),
                strides: Seq::empty(),
            },
        }
    }
}

/// The scopes of a program point, outermost first, each a map from the
/// names it declares.
pub type Scopes<V> = Seq<Map<Seq<char>, V>>;

/// What `name` stands for in `scopes`: what the innermost scope that
/// declares it maps it to.
pub open spec fn lookup<V>(scopes: Scopes<V>, name: Seq<char>) -> Option<V>
    decreases scopes.len(),
{
    if scopes.len() == 0 {
        None
    } else if scopes.last().contains_key(name) {
        Some(scopes.last()[name])
    } else {
        lookup(scopes.drop_last(), name)
    }
}

/// The scopes after a block is entered.
pub open spec fn entered<V>(scopes: Scopes<V>) -> Scopes<V> {
    scopes.push(Map::empty())
}

/// The scopes after a block is left. The outermost scope is never left.
pub open spec fn exited<V>(scopes: Scopes<V>) -> Scopes<V> {
    if scopes.len() > 1 {
        scopes.drop_last()
    } else {
        scopes
    }
}

/// The scopes after `name` is declared in the innermost one, or the error
/// where that scope declares it already.
pub open spec fn declared<V>(scopes: Scopes<V>, name: Seq<char>, what: V) -> Result<
    Scopes<V>,
    SemanticError,
> {
    if scopes.last().contains_key(name) {
        Err(SemanticError::DuplicateDeclaration)
    } else {
        Ok(scopes.update(scopes.len() - 1, scopes.last().insert(name, what)))
    }
}

/// The scopes as the rules of the language see them: each binding without
/// the place where it is stored.
pub open spec fn syms(scopes: Scopes<Binding>) -> Scopes<Sym> {
    Seq::new(scopes.len(), |i: int| scopes[i].map_values(|b: Binding| b@))
}

/// Looking a name up sees the same binding with and without its place.
pub proof fn lemma_syms_lookup(scopes: Scopes<Binding>, name: Seq<char>)
    ensures
        lookup(syms(scopes), name) == match lookup(scopes, name) {
            Some(b) => Some(b@),
            None => None::<Sym>,
        },
    decreases scopes.len(),
{
    if scopes.len() > 0 {
        lemma_syms_lookup(scopes.drop_last(), name);
        assert(syms(scopes).drop_last() =~= syms(scopes.drop_last()));
    }
}

/// Entering, leaving and declaring do the same with and without places.
pub proof fn lemma_syms_steps(scopes: Scopes<Binding>, name: Seq<char>, binding: Binding)
    requires
        scopes.len() >= 1,
    ensures
        syms(entered(scopes)) == entered(syms(scopes)),
        syms(exited(scopes)) == exited(syms(scopes)),
        syms(scopes).last().contains_key(name) == scopes.last().contains_key(name),
        declared(syms(scopes), name, binding@) == match declared(scopes, name, binding) {
            Ok(after) => Ok(syms(after)),
            Err(e) => Err::<Scopes<Sym>, SemanticError>(e),
        },
{
    let view = |b: Binding| b@;
    assert(syms(entered(scopes)) =~= entered(syms(scopes))) by {
        assert(Map::<Seq<char>, Binding>::empty().map_values(view) =~= Map::<
            Seq<char>,
            Sym,
        >::empty());
    }
    assert(syms(exited(scopes)) =~= exited(syms(scopes)));
    if !scopes.last().contains_key(name) {
        let after = scopes.update(scopes.len() - 1, scopes.last().insert(name, binding));
        assert(scopes.last().insert(name, binding).map_values(view) =~= scopes.last().map_values(
            view,
        ).insert(name, binding@));
        assert(syms(after) =~= syms(scopes).update(
            scopes.len() - 1,
            syms(scopes).last().insert(name, binding@),
        ));
    }
}

/// The scopes with how each binding lies in memory.
pub open spec fn places(scopes: Scopes<Binding>) -> Scopes<Placed> {
    Seq::new(scopes.len(), |i: int| scopes[i].map_values(|b: Binding| b.placed()))
}

/// Looking a name up sees the same binding with its place.
pub proof fn lemma_places_lookup(scopes: Scopes<Binding>, name: Seq<char>)
    ensures
        lookup(places(scopes), name) == match lookup(scopes, name) {
            Some(b) => Some(b.placed()),
            None => None::<Placed>,
        },
    decreases scopes.len(),
{
    if scopes.len() > 0 {
        lemma_places_lookup(scopes.drop_last(), name);
        assert(places(scopes).drop_last() =~= places(scopes.drop_last()));
    }
}

/// Entering, leaving and declaring do the same with places.
pub proof fn lemma_places_steps(scopes: Scopes<Binding>, name: Seq<char>, binding: Binding)
    requires
        scopes.len() >= 1,
    ensures
        places(entered(scopes)) == entered(places(scopes)),
        places(exited(scopes)) == exited(places(scopes)),
        places(scopes).last().contains_key(name) == scopes.last().contains_key(name),
        declared(places(scopes), name, binding.placed()) == match declared(scopes, name, binding) {
            Ok(after) => Ok(places(after)),
            Err(e) => Err::<Scopes<Placed>, SemanticError>(e),
        },
{
    let view = |b: Binding| b.placed();
    assert(places(entered(scopes)) =~= entered(places(scopes))) by {
        assert(Map::<Seq<char>, Binding>::empty().map_values(view) =~= Map::<
            Seq<char>,
            Placed,
        >::empty());
    }
    assert(places(exited(scopes)) =~= exited(places(scopes)));
    if !scopes.last().contains_key(name) {
        let after = scopes.update(scopes.len() - 1, scopes.last().insert(name, binding));
        assert(scopes.last().insert(name, binding).map_values(view) =~= scopes.last().map_values(
            view,
        ).insert(name, binding.placed()));
        assert(places(after) =~= places(scopes).update(
            scopes.len() - 1,
            places(scopes).last().insert(name, binding.placed()),
        ));
    }
}

/// The scopes with places, without the places.
pub open spec fn syms_of(scopes: Scopes<Placed>) -> Scopes<Sym> {
    Seq::new(scopes.len(), |i: int| scopes[i].map_values(|p: Placed| p.sym))
}

/// The rules see the scopes with places without the places.
pub proof fn lemma_syms_of_places(scopes: Scopes<Binding>)
    ensures
        syms_of(places(scopes)) == syms(scopes),
{
    assert forall|i: int| 0 <= i < scopes.len() implies syms_of(places(scopes))[i] == syms(
        scopes,
    )[i] by {
        assert(scopes[i].map_values(|b: Binding| b.placed()).map_values(|p: Placed| p.sym)
            =~= scopes[i].map_values(|b: Binding| b@));
    }
    assert(syms_of(places(scopes)) =~= syms(scopes));
}

/// A name declared in an inner block stands for what it is declared as
/// there, whatever the outer blocks declare, and for what it stood for
/// before once the inner block is left. `inner` is what the inner block has
/// declared so far.
pub proof fn lemma_shadowing<V>(
    outer: Scopes<V>,
    inner: Map<Seq<char>, V>,
    name: Seq<char>,
    what: V,
)
    requires
        outer.len() >= 1,
        !inner.contains_key(name),
    ensures
        declared(outer.push(inner), name, what) is Ok,
        lookup(declared(outer.push(inner), name, what)->Ok_0, name) == Some(what),
        exited(declared(outer.push(inner), name, what)->Ok_0) == outer,
{
    let at = outer.push(inner);
    let after = declared(at, name, what)->Ok_0;
    assert(after.drop_last() =~= outer);
}

/// Declaring another name leaves what a name stands for as it is.
pub proof fn lemma_declare_other<V>(scopes: Scopes<V>, other: Seq<char>, what: V, name: Seq<char>)
    requires
        scopes.len() >= 1,
        other != name,
        declared(scopes, other, what) is Ok,
    ensures
        lookup(declared(scopes, other, what)->Ok_0, name) == lookup(scopes, name),
{
    let after = declared(scopes, other, what)->Ok_0;
    assert(after.drop_last() =~= scopes.drop_last());
}

/// Entering a block leaves what a name stands for as it is.
pub proof fn lemma_enter_keeps<V>(scopes: Scopes<V>, name: Seq<char>)
    ensures
        lookup(entered(scopes), name) == lookup(scopes, name),
{
    assert(entered(scopes).drop_last() =~= scopes);
}

/// Whether the scopes `after` differ from the scopes `before` in the
/// innermost scope at most.
pub open spec fn outer_kept<V>(before: Scopes<V>, after: Scopes<V>) -> bool {
    after.len() == before.len() && after.drop_last() == before.drop_last()
}

/// Declaring a name changes the innermost scope only.
pub proof fn lemma_declared_keeps_outer<V>(scopes: Scopes<V>, name: Seq<char>, what: V)
    requires
        scopes.len() >= 1,
        declared(scopes, name, what) is Ok,
    ensures
        declared(scopes, name, what)->Ok_0.len() == scopes.len(),
        declared(scopes, name, what)->Ok_0.drop_last() == scopes.drop_last(),
{
    assert(declared(scopes, name, what)->Ok_0.drop_last() =~= scopes.drop_last());
}

/// A name cannot be declared twice in one block, but it can be declared
/// again in a block nested in it.
pub proof fn lemma_duplicate<V>(scopes: Scopes<V>, name: Seq<char>, first: V, second: V)
    requires
        scopes.len() >= 1,
        declared(scopes, name, first) is Ok,
    ensures
        declared(declared(scopes, name, first)->Ok_0, name, second) == Err::<
            Scopes<V>,
            SemanticError,
        >(SemanticError::DuplicateDeclaration),
        declared(entered(declared(scopes, name, first)->Ok_0), name, second) is Ok,
{
}

/// The map that a list of entries stands for; a later entry of the same
/// name would win, but a scope holds no name twice.
pub open spec fn frame_map(entries: Seq<(String, Binding)>) -> Map<Seq<char>, Binding>
    decreases entries.len(),
{
    if entries.len() == 0 {
        Map::empty()
    } else {
        frame_map(entries.drop_last()).insert(entries.last().0@, entries.last().1)
    }
}

/// Whether no two entries have the same name.
pub open spec fn distinct_names(entries: Seq<(String, Binding)>) -> bool {
    forall|i: int, j: int|
        0 <= i < j < entries.len() ==> (#[trigger] entries[i]).0@ != (#[trigger] entries[j]).0@
}

/// A frame maps exactly the names of its entries, each to its binding.
pub proof fn lemma_frame_map(entries: Seq<(String, Binding)>)
    requires
        distinct_names(entries),
    ensures
        forall|i: int|
            0 <= i < entries.len() ==> frame_map(entries).contains_key(
                (#[trigger] entries[i]).0@,
            ) && frame_map(entries)[entries[i].0@] == entries[i].1,
        forall|name: Seq<char>| #[trigger]
            frame_map(entries).contains_key(name) ==> exists|i: int|
                0 <= i < entries.len() && (#[trigger] entries[i]).0@ == name,
    decreases entries.len(),
{
    if entries.len() > 0 {
        let shorter = entries.drop_last();
        lemma_frame_map(shorter);
        assert forall|i: int| 0 <= i < entries.len() implies frame_map(entries).contains_key(
            (#[trigger] entries[i]).0@,
        ) && frame_map(entries)[entries[i].0@] == entries[i].1 by {
            if i < entries.len() - 1 {
                assert(shorter[i] == entries[i]);
                assert(entries[i].0@ != entries[entries.len() - 1].0@);
            }
        }
        assert forall|name: Seq<char>| #[trigger]
            frame_map(entries).contains_key(name) implies exists|i: int|
            0 <= i < entries.len() && (#[trigger] entries[i]).0@ == name by {
            if name == entries.last().0@ {
                assert(entries[entries.len() - 1].0@ == name);
            } else {
                assert(frame_map(shorter).contains_key(name));
                let i = choose|i: int| 0 <= i < shorter.len() && (#[trigger] shorter[i]).0@ == name;
                assert(entries[i].0@ == name);
            }
        }
    }
}

/// A stack of lexical scopes. It always holds the outermost scope.
pub struct SymbolTable {
    frames: Vec<Vec<(String, Binding)>>,
}

impl SymbolTable {
    /// The scopes, outermost first.
    pub closed spec fn view(&self) -> Scopes<Binding> {
        Seq::new(self.frames@.len(), |i: int| frame_map(self.frames@[i]@))
    }

    /// The scopes as the rules of the language see them.
    pub closed spec fn env(&self) -> Scopes<Sym> {
        syms(self@)
    }

    /// The scopes as the language sees them are the scopes without the
    /// places in memory.
    pub proof fn lemma_env(&self)
        ensures
            self.env() == syms(self@),
    {
    }

    /// The scopes with how each binding lies in memory.
    pub closed spec fn places(&self) -> Scopes<Placed> {
        places(self@)
    }

    /// The scopes with places are the scopes with each binding placed, and
    /// the rules see them without the places.
    pub proof fn lemma_places(&self)
        ensures
            self.places() == places(self@),
            self.env() == syms_of(self.places()),
    {
        lemma_syms_of_places(self@);
    }

    /// The invariant of the table: it holds a scope, and no scope holds a
    /// name twice.
    pub closed spec fn wf(&self) -> bool {
        &&& self.frames@.len() >= 1
        &&& forall|i: int|
            0 <= i < self.frames@.len() ==> distinct_names((#[trigger] self.frames@[i])@)
    }

    /// A well-formed table holds at least the outermost scope.
    pub proof fn lemma_depth(&self)
        requires
            self.wf(),
        ensures
            self@.len() >= 1,
            self.env().len() == self@.len(),
            self.places().len() == self@.len(),
    {
    }

    /// A table with the outermost scope alone, which declares nothing.
    pub fn new() -> (table: SymbolTable)
        ensures
            table.wf(),
            table@ == seq![Map::<Seq<char>, Binding>::empty()],
            table.env() == seq![Map::<Seq<char>, Sym>::empty()],
            table.places() == seq![Map::<Seq<char>, Placed>::empty()],
    {
        let mut frames: Vec<Vec<(String, Binding)>> = Vec::new();
        frames.push(Vec::new());
        let table = SymbolTable { frames };
        proof {
            assert(table@ =~= seq![Map::<Seq<char>, Binding>::empty()]);
            assert(Map::<Seq<char>, Binding>::empty().map_values(|b: Binding| b@) =~= Map::<
                Seq<char>,
                Sym,
            >::empty());
            assert(table.env() =~= seq![Map::<Seq<char>, Sym>::empty()]);
            assert(Map::<Seq<char>, Binding>::empty().map_values(|b: Binding| b.placed())
                =~= Map::<Seq<char>, Placed>::empty());
            assert(table.places() =~= seq![Map::<Seq<char>, Placed>::empty()]);
        }
        table
    }

    /// How many scopes are open.
    pub fn depth(&self) -> (n: usize)
        requires
            self.wf(),
        ensures
            n == self@.len(),
            n >= 1,
    {
        self.frames.len()
    }

    /// Opens a scope inside the innermost one.
    pub fn enter_scope(&mut self)
        requires
            old(self).wf(),
        ensures
            final(self).wf(),
            final(self)@ == entered(old(self)@),
            final(self).env() == entered(old(self).env()),
            final(self).places() == entered(old(self).places()),
    {
        self.frames.push(Vec::new());
        proof {
            assert(self@ =~= entered(old(self)@));
            lemma_syms_steps(old(self)@, Seq::empty(), Binding::Const(0));
            lemma_places_steps(old(self)@, Seq::empty(), Binding::Const(0));
        }
    }

    /// Closes the innermost scope and forgets what it declares. The
    /// outermost scope stays open.
    pub fn exit_scope(&mut self)
        requires
            old(self).wf(),
        ensures
            final(self).wf(),
            final(self)@ == exited(old(self)@),
            final(self).env() == exited(old(self).env()),
            final(self).places() == exited(old(self).places()),
    {
        proof {
            lemma_syms_steps(old(self)@, Seq::empty(), Binding::Const(0));
            lemma_places_steps(old(self)@, Seq::empty(), Binding::Const(0));
        }
        if self.frames.len() > 1 {
            self.frames.pop();
            proof {
                assert(self@ =~= exited(old(self)@));
            }
        }
    }

    /// Where `name` stands among `entries`, if it does.
    fn find(entries: &Vec<(String, Binding)>, name: &String) -> (at: Option<usize>)
        ensures
            match at {
                Some(i) => i < entries@.len() && entries@[i as int].0@ == name@,
                None => forall|i: int| 0 <= i < entries@.len() ==> (#[trigger] entries@[i]).0@ != name@,
            },
    {
        let mut i: usize = 0;
        while i < entries.len()
            invariant
                i <= entries@.len(),
                forall|j: int| 0 <= j < i ==> (#[trigger] entries@[j]).0@ != name@,
            decreases entries.len() - i,
        {
            if entries[i].0 == *name {
                return Some(i);
            }
            i = i + 1;
        }
        None
    }

    /// Whether the innermost scope declares `name`.
    pub fn declares(&self, name: &String) -> (found: bool)
        requires
            self.wf(),
        ensures
            found == self@.last().contains_key(name@),
            found == self.env().last().contains_key(name@),
    {
        let top = self.frames.len() - 1;
        proof {
            lemma_frame_map(self.frames@[top as int]@);
            lemma_syms_steps(self@, name@, Binding::Const(0));
        }
        match Self::find(&self.frames[top], name) {
            Some(_) => true,
            None => false,
        }
    }

    /// Declares `name` in the innermost scope. Fails where that scope
    /// declares it already; an outer scope's binding of the name is
    /// shadowed until the innermost scope is closed.
    pub fn declare(&mut self, name: String, binding: Binding) -> (r: Result<(), SemanticError>)
        requires
            old(self).wf(),
        ensures
            final(self).wf(),
            match r {
                Ok(()) => declared(old(self)@, name@, binding) == Ok::<
                    Scopes<Binding>,
                    SemanticError,
                >(final(self)@),
                Err(e) => declared(old(self)@, name@, binding) == Err::<
                    Scopes<Binding>,
                    SemanticError,
                >(e) && final(self)@ == old(self)@,
            },
            declared(old(self).env(), name@, binding@) == match r {
                Ok(()) => Ok(final(self).env()),
                Err(e) => Err::<Scopes<Sym>, SemanticError>(e),
            },
            declared(old(self).places(), name@, binding.placed()) == match r {
                Ok(()) => Ok(final(self).places()),
                Err(e) => Err::<Scopes<Placed>, SemanticError>(e),
            },
    {
        proof {
            lemma_syms_steps(old(self)@, name@, binding);
            lemma_places_steps(old(self)@, name@, binding);
        }
        if self.declares(&name) {
            return Err(SemanticError::DuplicateDeclaration);
        }
        let ghost scopes = self@;
        let ghost before = self.frames@;
        let mut frame = match self.frames.pop() {
            Some(frame) => frame,
            None => Vec::new(),
        };
        let ghost entries = frame@;
        proof {
            lemma_frame_map(entries);
        }
        frame.push((name, binding));
        proof {
            assert(frame@.drop_last() =~= entries);
            assert(distinct_names(frame@)) by {
                assert forall|i: int, j: int| 0 <= i < j < frame@.len() implies (
                #[trigger] frame@[i]).0@ != (#[trigger] frame@[j]).0@ by {
                    if j < entries.len() {
                        assert(entries[i] == frame@[i]);
                        assert(entries[j] == frame@[j]);
                    } else {
                        assert(entries[i] == frame@[i]);
                        assert(frame_map(entries).contains_key(entries[i].0@));
                    }
                }
            }
        }
        self.frames.push(frame);
        proof {
            assert forall|i: int| 0 <= i < self.frames@.len() implies distinct_names(
                (#[trigger] self.frames@[i])@,
            ) by {
                if i < before.len() - 1 {
                    assert(self.frames@[i] == before[i]);
                }
            }
            assert(self@ =~= scopes.update(
                scopes.len() - 1,
                scopes.last().insert(name@, binding),
            ));
        }
        Ok(())
    }

    /// Finds what `name` stands for: its binding in the innermost scope
    /// that declares it. Fails where no open scope declares it.
    pub fn resolve(&self, name: &String) -> (r: Result<&Binding, SemanticError>)
        requires
            self.wf(),
        ensures
            match r {
                Ok(binding) => lookup(self@, name@) == Some(*binding) && lookup(
                    self.env(),
                    name@,
                ) == Some(binding@) && lookup(self.places(), name@) == Some(binding.placed()),
                Err(e) => e == SemanticError::UndefinedIdentifier && lookup(self@, name@) is None
                    && lookup(self.env(), name@) is None && lookup(self.places(), name@) is None,
            },
    {
        let mut k: usize = self.frames.len();
        proof {
            lemma_syms_lookup(self@, name@);
            lemma_places_lookup(self@, name@);
            assert(self@.subrange(0, k as int) =~= self@);
        }
        while k > 0
            invariant
                self.wf(),
                k <= self.frames@.len(),
                lookup(self@, name@) == lookup(self@.subrange(0, k as int), name@),
                lookup(self.env(), name@) == match lookup(self@, name@) {
                    Some(b) => Some(b@),
                    None => None::<Sym>,
                },
                lookup(self.places(), name@) == match lookup(self@, name@) {
                    Some(b) => Some(b.placed()),
                    None => None::<Placed>,
                },
            decreases k,
        {
            k = k - 1;
            proof {
                lemma_frame_map(self.frames@[k as int]@);
                let upto = self@.subrange(0, k + 1);
                assert(upto.last() == frame_map(self.frames@[k as int]@));
                assert(upto.drop_last() =~= self@.subrange(0, k as int));
            }
            match Self::find(&self.frames[k], name) {
                Some(i) => {
                    return Ok(&self.frames[k][i].1);
                },
                None => {},
            }
        }
        Err(SemanticError::UndefinedIdentifier)
    }
}

} // verus!
