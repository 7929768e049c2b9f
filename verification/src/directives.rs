//! The directives of a source: globals, builtins in use, outside modules and
//! labels, found in a pass of their own before the main pass.

use crate::consts::{builtin_of, is_builtin, Format};
use crate::error::AssembleError;
use crate::machine::{defined_name, left};
use crate::names::{insert_at, search, sorted, sorted_listing};
use crate::pass::name_of;
use crate::text::{
    is_word, lemma_lex_irreflexive, lemma_lex_transitive, lex_lt, tail, texts, to_uppercase,
    uppercase,
};
use vstd::prelude::*;

verus! {

/// What the directives of a source declare, each list in the order of the
/// source.
#[verifier::ext_equal]
pub struct Declared {
    /// The names behind `.global`.
    pub globals: Seq<Seq<char>>,
    /// The names behind `.use`, in upper case.
    pub usages: Seq<Seq<char>>,
    /// The names behind `.extern`.
    pub externs: Seq<Seq<char>>,
    /// The labels.
    pub labels: Seq<Seq<char>>,
}

impl Declared {
    pub open spec fn none() -> Declared {
        Declared {
            globals: Seq::empty(),
            usages: Seq::empty(),
            externs: Seq::empty(),
            labels: Seq::empty(),
        }
    }
}

/// Whether the directive pass reads a token: it begins with `.` and is not
/// `.named`.
pub open spec fn is_declaration(token: Seq<char>) -> bool {
    token.len() > 0 && token[0] == '.' && token != ".named"@
}

/// Whether a directive takes the token behind it as its name.
pub open spec fn takes_name(token: Seq<char>) -> bool {
    token == ".global"@ || token == ".use"@ || token == ".extern"@
}

/// What the directive at `pos` adds to what was found before it.
pub open spec fn declare(tokens: Seq<Seq<char>>, pos: int, found: Declared) -> Result<
    Declared,
    AssembleError,
> {
    let token = tokens[pos];
    if !is_declaration(token) {
        Ok(found)
    } else if takes_name(token) && pos + 1 >= tokens.len() {
        Err(AssembleError::Syntax)
    } else if token == ".global"@ {
        if found.globals.contains(tokens[pos + 1]) {
            Err(AssembleError::DuplicateSymbol)
        } else {
            Ok(Declared { globals: found.globals.push(tokens[pos + 1]), ..found })
        }
    } else if token == ".use"@ {
        if !is_builtin(uppercase(tokens[pos + 1])) {
            Err(AssembleError::UnknownBuiltin)
        } else {
            Ok(Declared { usages: found.usages.push(uppercase(tokens[pos + 1])), ..found })
        }
    } else if token == ".extern"@ {
        Ok(Declared { externs: found.externs.push(tokens[pos + 1]), ..found })
    } else {
        match defined_name(Format::Extended, token) {
            None => Err(AssembleError::Syntax),
            Some(name) => Ok(Declared { labels: found.labels.push(name), ..found }),
        }
    }
}

/// What the directives from `pos` on declare, added to what was found
/// before them.
pub open spec fn declared_from(tokens: Seq<Seq<char>>, pos: int, found: Declared) -> Result<
    Declared,
    AssembleError,
>
    decreases left(tokens, pos),
{
    if pos < 0 || pos >= tokens.len() {
        Ok(found)
    } else {
        match declare(tokens, pos, found) {
            Err(e) => Err(e),
            Ok(more) => declared_from(
                tokens,
                pos + 1 + (if is_declaration(tokens[pos]) && takes_name(tokens[pos]) {
                    1int
                } else {
                    0int
                }),
                more,
            ),
        }
    }
}

/// What the directives of a source declare.
pub open spec fn declared(tokens: Seq<Seq<char>>) -> Result<Declared, AssembleError> {
    declared_from(tokens, 0, Declared::none())
}

/// The names of a list in dictionary order, each once.
pub open spec fn sorted_names(all: Seq<Seq<char>>) -> Seq<Seq<char>> {
    choose|list: Seq<Seq<char>>| sorted_listing(list, all)
}

/// Two sorted lists of the same names are the same list.
pub proof fn lemma_sorted_unique(a: Seq<Seq<char>>, b: Seq<Seq<char>>)
    requires
        sorted(a),
        sorted(b),
        forall|name: Seq<char>| a.contains(name) <==> b.contains(name),
    ensures
        a == b,
    decreases a.len(),
{
    if a.len() == 0 {
        if b.len() > 0 {
            assert(b.contains(b[0]));
        }
        assert(a =~= b);
    } else {
        assert(a.contains(a[0]));
        let k = choose|k: int| 0 <= k < b.len() && b[k] == a[0];
        assert(b.contains(b[0]));
        let j = choose|j: int| 0 <= j < a.len() && a[j] == b[0];
        if k > 0 {
            // b[0] < b[k] == a[0] <= a[j] == b[0]
            if j > 0 {
                lemma_lex_transitive(b[0], a[0], a[j]);
            }
            lemma_lex_irreflexive(b[0]);
        }
        assert(a[0] == b[0]);
        let ra = a.skip(1);
        let rb = b.skip(1);
        assert forall|name: Seq<char>| ra.contains(name) <==> rb.contains(name) by {
            if ra.contains(name) {
                let i = choose|i: int| 0 <= i < ra.len() && ra[i] == name;
                assert(a[i + 1] == name);
                assert(a.contains(name));
                let t = choose|t: int| 0 <= t < b.len() && b[t] == name;
                if t == 0 {
                    lemma_lex_irreflexive(name);
                    assert(lex_lt(a[0], a[i + 1]));
                }
                assert(rb[t - 1] == name);
            }
            if rb.contains(name) {
                let i = choose|i: int| 0 <= i < rb.len() && rb[i] == name;
                assert(b[i + 1] == name);
                assert(b.contains(name));
                let t = choose|t: int| 0 <= t < a.len() && a[t] == name;
                if t == 0 {
                    lemma_lex_irreflexive(name);
                    assert(lex_lt(b[0], b[i + 1]));
                }
                assert(ra[t - 1] == name);
            }
        }
        assert forall|i: int, j: int| 0 <= i < j < ra.len() implies lex_lt(
            #[trigger] ra[i],
            #[trigger] ra[j],
        ) by {
            assert(lex_lt(a[i + 1], a[j + 1]));
        }
        assert forall|i: int, j: int| 0 <= i < j < rb.len() implies lex_lt(
            #[trigger] rb[i],
            #[trigger] rb[j],
        ) by {
            assert(lex_lt(b[i + 1], b[j + 1]));
        }
        lemma_sorted_unique(ra, rb);
        assert(a =~= seq![a[0]] + ra);
        assert(b =~= seq![b[0]] + rb);
    }
}

/// A sorted list of the names in `all` is the sorted list of them.
pub proof fn lemma_sorted_names(list: Seq<Seq<char>>, all: Seq<Seq<char>>)
    requires
        sorted_listing(list, all),
    ensures
        list == sorted_names(all),
        sorted_listing(sorted_names(all), all),
{
    lemma_sorted_unique(list, sorted_names(all));
}

/// The directives of a source, as the assembler keeps them.
pub struct Found {
    /// The globals, sorted.
    pub globals: Vec<Vec<char>>,
    /// The builtins in use, sorted, each once.
    pub usages: Vec<Vec<char>>,
    pub externs: Vec<Vec<char>>,
    pub labels: Vec<Vec<char>>,
}

impl Found {
    /// Whether these are the directives that `found` lists.
    pub open spec fn holds(self, found: Declared) -> bool {
        &&& sorted_listing(texts(self.globals@), found.globals)
        &&& sorted_listing(texts(self.usages@), found.usages)
        &&& texts(self.externs@) == found.externs
        &&& texts(self.labels@) == found.labels
    }
}

/// Reads the directives of a source.
pub fn scan(tokens: &Vec<Vec<char>>) -> (r: Result<Found, AssembleError>)
    ensures
        match r {
            Ok(found) => declared(texts(tokens@)) is Ok && found.holds(
                declared(texts(tokens@))->Ok_0,
            ),
            Err(e) => declared(texts(tokens@)) == Err::<Declared, AssembleError>(e),
        },
{
    let mut found = Found {
        globals: Vec::new(),
        usages: Vec::new(),
        externs: Vec::new(),
        labels: Vec::new(),
    };
    let ghost mut so_far = Declared::none();
    let ghost all = texts(tokens@);
    let mut pos: usize = 0;
    proof {
        reveal_strlit(".global");
        reveal_strlit(".use");
        reveal_strlit(".extern");
        reveal_strlit(".named");
        assert(texts(found.externs@) =~= so_far.externs);
        assert(texts(found.labels@) =~= so_far.labels);
    }
    while pos < tokens.len()
        invariant
            all == texts(tokens@),
            found.holds(so_far),
            declared(all) == declared_from(all, pos as int, so_far),
        decreases tokens.len() - pos,
    {
        let token = &tokens[pos];
        assert(all[pos as int] == token@);
        let ghost before = so_far;
        if token.len() == 0 || token[0] != '.' || is_word(token, ".named") {
            pos += 1;
            continue ;
        }
        let global = is_word(token, ".global");
        let usage = is_word(token, ".use");
        let outside = is_word(token, ".extern");
        if global || usage || outside {
            if tokens.len() - pos < 2 {
                return Err(AssembleError::Syntax);
            }
            let name = &tokens[pos + 1];
            assert(all[pos + 1] == name@);
            if global {
                match search(&found.globals, name) {
                    Ok(i) => {
                        assert(texts(found.globals@)[i as int] == name@);
                        return Err(AssembleError::DuplicateSymbol);
                    },
                    Err(i) => {
                        let copy = tail(name, 0);
                        assert(name@.skip(0) == name@);
                        insert_at(&mut found.globals, i, copy);
                        proof {
                            so_far = Declared { globals: before.globals.push(name@), ..before };
                            lemma_pushed(before.globals, name@);
                        }
                    },
                }
            } else if usage {
                let upper = to_uppercase(name);
                if builtin_of(&upper) == 0 {
                    return Err(AssembleError::UnknownBuiltin);
                }
                match search(&found.usages, &upper) {
                    Ok(i) => {
                        assert(texts(found.usages@)[i as int] == upper@);
                    },
                    Err(i) => {
                        insert_at(&mut found.usages, i, upper);
                    },
                }
                proof {
                    so_far = Declared { usages: before.usages.push(upper@), ..before };
                    lemma_pushed(before.usages, upper@);
                }
            } else {
                let copy = tail(name, 0);
                assert(name@.skip(0) == name@);
                found.externs.push(copy);
                proof {
                    so_far = Declared { externs: before.externs.push(name@), ..before };
                    assert(texts(found.externs@) =~= so_far.externs);
                }
            }
            pos += 2;
        } else {
            let name = match name_of(Format::Extended, token) {
                Some(name) => name,
                None => {
                    return Err(AssembleError::Syntax);
                },
            };
            found.labels.push(name);
            proof {
                so_far = Declared { labels: before.labels.push(name@), ..before };
                assert(texts(found.labels@) =~= so_far.labels);
            }
            pos += 1;
        }
    }
    Ok(found)
}

/// What a list holds after one more name.
proof fn lemma_pushed(list: Seq<Seq<char>>, name: Seq<char>)
    ensures
        forall|other: Seq<char>|
            #![trigger list.push(name).contains(other)]
            #![trigger list.contains(other)]
            list.push(name).contains(other) <==> (other == name || list.contains(other)),
{
    assert forall|other: Seq<char>|
        #![trigger list.push(name).contains(other)]
        #![trigger list.contains(other)]
        list.push(name).contains(other) <==> (other == name || list.contains(other)) by {
        let more = list.push(name);
        if more.contains(other) {
            let k = choose|k: int| 0 <= k < more.len() && more[k] == other;
            if k < list.len() {
                assert(list[k] == other);
            }
        }
        if other == name {
            assert(more[list.len() as int] == other);
        }
        if list.contains(other) {
            let k = choose|k: int| 0 <= k < list.len() && list[k] == other;
            assert(more[k] == other);
        }
    }
}

} // verus!
