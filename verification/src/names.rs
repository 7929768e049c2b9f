//! Variable slots: how a name in a source becomes the number of a slot.
//!
//! In numeric mode a name is the decimal number of its slot. In named mode a
//! global has the slot of its place in the sorted list of globals, and any
//! other name gets, for each function that uses it, the next free slot when
//! it is first met there.

use crate::error::AssembleError;
use crate::table::SymbolTable;
use crate::text::{
    comes_before, lemma_lex_irreflexive, lemma_lex_total, lemma_lex_transitive, lex_lt,
    parse_unsigned, read_u32, texts,
};
use vstd::prelude::*;

verus! {

/// Whether a list of names rises strictly in dictionary order.
pub open spec fn sorted(list: Seq<Seq<char>>) -> bool {
    forall|i: int, j: int| 0 <= i < j < list.len() ==> lex_lt(#[trigger] list[i], #[trigger] list[j])
}

/// Whether `list` is the sorted list, without repeats, of the names in `all`.
pub open spec fn sorted_listing(list: Seq<Seq<char>>, all: Seq<Seq<char>>) -> bool {
    &&& sorted(list)
    &&& forall|name: Seq<char>| list.contains(name) <==> all.contains(name)
}

pub proof fn lemma_sorted_distinct(list: Seq<Seq<char>>, i: int, j: int)
    requires
        sorted(list),
        0 <= i < list.len(),
        0 <= j < list.len(),
        list[i] == list[j],
    ensures
        i == j,
{
    lemma_lex_irreflexive(list[i]);
}

/// The place of a name in a sorted list: `Ok` with its index if it is there,
/// `Err` with the index at which it would stand if it is not.
pub fn search(list: &Vec<Vec<char>>, name: &Vec<char>) -> (place: Result<usize, usize>)
    requires
        sorted(texts(list@)),
    ensures
        match place {
            Ok(i) => i < list.len() && list[i as int]@ == name@,
            Err(i) => {
                &&& i <= list.len()
                &&& !texts(list@).contains(name@)
                &&& forall|k: int| 0 <= k < i ==> lex_lt(#[trigger] texts(list@)[k], name@)
                &&& forall|k: int| i <= k < list.len() ==> lex_lt(name@, #[trigger] texts(list@)[k])
            },
        },
{
    let ghost names = texts(list@);
    let mut low: usize = 0;
    let mut high: usize = list.len();
    while low < high
        invariant
            low <= high <= list.len(),
            names == texts(list@),
            sorted(names),
            forall|k: int| 0 <= k < low ==> lex_lt(#[trigger] names[k], name@),
            forall|k: int| high <= k < list.len() ==> lex_lt(name@, #[trigger] names[k]),
        decreases high - low,
    {
        let mid: usize = low + (high - low) / 2;
        assert(names[mid as int] == list[mid as int]@);
        if comes_before(&list[mid], name) {
            assert forall|k: int| 0 <= k < mid + 1 implies lex_lt(#[trigger] names[k], name@) by {
                if k < mid {
                    lemma_lex_transitive(names[k], names[mid as int], name@);
                }
            }
            low = mid + 1;
        } else if comes_before(name, &list[mid]) {
            assert forall|k: int| mid <= k < list.len() implies lex_lt(
                name@,
                #[trigger] names[k],
            ) by {
                if k > mid {
                    lemma_lex_transitive(name@, names[mid as int], names[k]);
                }
            }
            high = mid;
        } else {
            proof {
                lemma_lex_total(names[mid as int], name@);
            }
            return Ok(mid);
        }
    }
    proof {
        if names.contains(name@) {
            let k = choose|k: int| 0 <= k < names.len() && names[k] == name@;
            lemma_lex_irreflexive(name@);
        }
    }
    Err(low)
}

/// Puts a name into a sorted list at the place that `search` gave for it.
pub fn insert_at(list: &mut Vec<Vec<char>>, at: usize, name: Vec<char>)
    requires
        sorted(texts(old(list)@)),
        at <= old(list).len(),
        forall|k: int| 0 <= k < at ==> lex_lt(#[trigger] texts(old(list)@)[k], name@),
        forall|k: int| at <= k < old(list).len() ==> lex_lt(name@, #[trigger] texts(old(list)@)[k]),
    ensures
        sorted(texts(final(list)@)),
        texts(final(list)@) == texts(old(list)@).insert(at as int, name@),
        forall|other: Seq<char>|
            texts(final(list)@).contains(other) <==> (other == name@ || texts(
                old(list)@,
            ).contains(other)),
{
    let ghost before = texts(list@);
    list.insert(at, name);
    let ghost after = texts(list@);
    assert(after =~= before.insert(at as int, name@));
    assert forall|i: int, j: int| 0 <= i < j < after.len() implies lex_lt(
        #[trigger] after[i],
        #[trigger] after[j],
    ) by {
        if j < at {
            assert(after[i] == before[i] && after[j] == before[j]);
        } else if j == at {
            assert(after[i] == before[i]);
        } else if i < at {
            assert(after[i] == before[i] && after[j] == before[j - 1]);
        } else if i == at {
            assert(after[j] == before[j - 1]);
        } else {
            assert(after[i] == before[i - 1] && after[j] == before[j - 1]);
        }
    }
    assert forall|other: Seq<char>|
        after.contains(other) <==> (other == name@ || before.contains(other)) by {
        if after.contains(other) {
            let k = choose|k: int| 0 <= k < after.len() && after[k] == other;
            if k < at {
                assert(before[k] == other);
            } else if k > at {
                assert(before[k - 1] == other);
            }
        }
        if other == name@ {
            assert(after[at as int] == other);
        }
        if before.contains(other) {
            let k = choose|k: int| 0 <= k < before.len() && before[k] == other;
            if k < at {
                assert(after[k] == other);
            } else {
                assert(after[k + 1] == other);
            }
        }
    }
}

/// What the slots of variables depend on.
#[verifier::ext_equal]
pub struct ScopeView {
    /// Whether names are symbolic.
    pub named: bool,
    /// The global names, sorted.
    pub globals: Seq<Seq<char>>,
    /// The slots given out so far, each under the key of its function and name.
    pub locals: Map<Seq<char>, u32>,
    /// The next free slot.
    pub next_var: u32,
}

/// The key under which a function's local name is kept.
pub open spec fn local_key(func: Seq<char>, name: Seq<char>) -> Seq<char> {
    func + seq!['_'] + name
}

impl ScopeView {
    /// Globals are sorted and own the lowest slots; the locals own distinct
    /// slots between them and the next free one.
    pub open spec fn wf(self) -> bool {
        &&& sorted(self.globals)
        &&& self.globals.len() <= self.next_var
        &&& forall|key: Seq<char>| #[trigger]
            self.locals.contains_key(key) ==> self.globals.len() <= self.locals[key]
                < self.next_var
        &&& forall|a: Seq<char>, b: Seq<char>|
            #![trigger self.locals[a], self.locals[b]]
            self.locals.contains_key(a) && self.locals.contains_key(b) && a != b
                ==> self.locals[a] != self.locals[b]
    }

    /// The slot of `name` used in function `func`, and the scope after the
    /// use.
    pub open spec fn resolve(self, func: Seq<char>, name: Seq<char>) -> Result<
        (u32, ScopeView),
        AssembleError,
    > {
        if !self.named {
            match parse_unsigned(name, u32::MAX as nat) {
                Some(slot) => Ok((slot as u32, self)),
                None => Err(AssembleError::Syntax),
            }
        } else if self.globals.contains(name) {
            Ok((self.globals.index_of(name) as u32, self))
        } else if self.locals.contains_key(local_key(func, name)) {
            Ok((self.locals[local_key(func, name)], self))
        } else if self.next_var == u32::MAX {
            Err(AssembleError::TooLarge)
        } else {
            Ok(
                (
                    self.next_var,
                    ScopeView {
                        locals: self.locals.insert(local_key(func, name), self.next_var),
                        next_var: (self.next_var + 1) as u32,
                        ..self
                    },
                ),
            )
        }
    }
}

/// Two functions keep the same name under different keys.
pub proof fn lemma_keys_apart(f: Seq<char>, g: Seq<char>, name: Seq<char>)
    requires
        f != g,
    ensures
        local_key(f, name) != local_key(g, name),
{
    let a = local_key(f, name);
    let b = local_key(g, name);
    if a == b {
        assert(a.len() == f.len() + 1 + name.len());
        assert(b.len() == g.len() + 1 + name.len());
        assert forall|i: int| 0 <= i < f.len() implies f[i] == g[i] by {
            assert(a[i] == f[i]);
            assert(b[i] == g[i]);
        }
        assert(f =~= g);
    }
}

/// A use of a name leaves the scope well formed, keeps the mode, the
/// globals and every slot that was given out, and never takes a slot back.
pub proof fn lemma_resolve_keeps(scope: ScopeView, func: Seq<char>, name: Seq<char>)
    requires
        scope.wf(),
        scope.resolve(func, name) is Ok,
    ensures
        scope.resolve(func, name)->Ok_0.1.wf(),
        scope.resolve(func, name)->Ok_0.1.named == scope.named,
        scope.resolve(func, name)->Ok_0.1.globals == scope.globals,
        scope.resolve(func, name)->Ok_0.1.next_var >= scope.next_var,
        forall|key: Seq<char>| #[trigger]
            scope.locals.contains_key(key) ==> scope.resolve(func, name)->Ok_0.1.locals.contains_key(
                key,
            ) && scope.resolve(func, name)->Ok_0.1.locals[key] == scope.locals[key],
{
}

/// The slots of variables while a source is assembled.
pub struct Scope {
    named: bool,
    globals: Vec<Vec<char>>,
    locals: SymbolTable,
    next_var: u32,
}

impl View for Scope {
    type V = ScopeView;

    closed spec fn view(&self) -> ScopeView {
        ScopeView {
            named: self.named,
            globals: texts(self.globals@),
            locals: self.locals@,
            next_var: self.next_var,
        }
    }
}

impl Scope {
    /// A scope in which no local has a slot yet. `None` where there are more
    /// globals than slots.
    pub fn new(named: bool, globals: Vec<Vec<char>>) -> (scope: Option<Scope>)
        requires
            sorted(texts(globals@)),
        ensures
            match scope {
                Some(s) => {
                    &&& s@.wf()
                    &&& s@.named == named
                    &&& s@.globals == texts(globals@)
                    &&& s@.locals == Map::<Seq<char>, u32>::empty()
                    &&& s@.next_var == globals.len()
                },
                None => globals.len() > u32::MAX,
            },
    {
        if globals.len() > 0xFFFF_FFFF {
            return None;
        }
        let next_var: u32 = globals.len() as u32;
        Some(Scope { named, globals, locals: SymbolTable::new(), next_var })
    }

    pub fn is_named(&self) -> (named: bool)
        ensures
            named == self@.named,
    {
        self.named
    }

    pub fn global_count(&self) -> (count: u32)
        requires
            self@.wf(),
        ensures
            count == self@.globals.len(),
    {
        self.globals.len() as u32
    }

    /// The slot of `name` used in function `func`. A name met for the first
    /// time gets the next free slot.
    pub fn resolve(&mut self, func: &Vec<char>, name: &Vec<char>) -> (slot: Result<
        u32,
        AssembleError,
    >)
        requires
            old(self)@.wf(),
        ensures
            final(self)@.wf(),
            match slot {
                Ok(id) => old(self)@.resolve(func@, name@) == Ok::<_, AssembleError>(
                    (id, final(self)@),
                ),
                Err(e) => old(self)@.resolve(func@, name@) == Err::<(u32, ScopeView), _>(e)
                    && final(self)@ == old(self)@,
            },
    {
        if !self.named {
            return match read_u32(name) {
                Some(id) => Ok(id),
                None => Err(AssembleError::Syntax),
            };
        }
        match search(&self.globals, name) {
            Ok(i) => {
                proof {
                    let names = self@.globals;
                    assert(names[i as int] == name@);
                    lemma_sorted_distinct(names, i as int, names.index_of(name@));
                }
                Ok(i as u32)
            },
            Err(_) => {
                let mut key: Vec<char> = Vec::new();
                let mut i: usize = 0;
                while i < func.len()
                    invariant
                        i <= func.len(),
                        key@ == func@.take(i as int),
                    decreases func.len() - i,
                {
                    key.push(func[i]);
                    i += 1;
                    assert(key@ == func@.take(i as int));
                }
                assert(func@.take(i as int) == func@);
                key.push('_');
                let mut j: usize = 0;
                while j < name.len()
                    invariant
                        j <= name.len(),
                        key@ == func@ + seq!['_'] + name@.take(j as int),
                    decreases name.len() - j,
                {
                    key.push(name[j]);
                    j += 1;
                    assert(key@ == func@ + seq!['_'] + name@.take(j as int));
                }
                assert(name@.take(j as int) == name@);
                match self.locals.find(&key) {
                    Some(id) => Ok(id),
                    None => {
                        if self.next_var == 0xFFFF_FFFF {
                            return Err(AssembleError::TooLarge);
                        }
                        let id = self.next_var;
                        self.locals.enter(&key, id);
                        self.next_var = id + 1;
                        Ok(id)
                    },
                }
            },
        }
    }
}

} // verus!
