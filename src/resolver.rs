//! Grammar inheritance: a child grammar overrides its parent's rules by name
//! and appends the rules that are new to it.
use vstd::prelude::*;
use crate::model::{
    find_name, find_name_in, lemma_find_name, rule_names, views_of, distinct_names,
    GrammarDefinition, GrammarView, Rule,
};
use crate::error::GrammarError;

verus! {

/// The rules of `base` with the rules of `child` merged in, in the child's
/// order: a rule whose name `base` already has replaces it at its position,
/// any other rule is appended.
pub open spec fn merge_rules(base: Seq<Rule>, child: Seq<Rule>) -> Seq<Rule>
    decreases child.len(),
{
    if child.len() == 0 {
        base
    } else {
        let acc = merge_rules(base, child.drop_last());
        let r = child.last();
        match find_name(rule_names(base), r.name@) {
            Some(i) => acc.update(i, r),
            None => acc.push(r),
        }
    }
}

/// The names of the child's rules that replace a rule of `base`, in the
/// child's order.
pub open spec fn overridden(base: Seq<Rule>, child: Seq<Rule>) -> Seq<Seq<char>>
    decreases child.len(),
{
    if child.len() == 0 {
        Seq::empty()
    } else {
        let acc = overridden(base, child.drop_last());
        if find_name(rule_names(base), child.last().name@) is Some {
            acc.push(child.last().name@)
        } else {
            acc
        }
    }
}

/// The grammar that results from merging `child` into `base`: it carries the
/// child's name and whitespace policy, the base's options, no parent, and the
/// merged rules.
pub open spec fn merge_view(base: GrammarView, child: GrammarView) -> GrammarView {
    GrammarView {
        name: child.name,
        inherits: None,
        implicit_whitespace: child.implicit_whitespace,
        options: base.options,
        rules: merge_rules(base.rules, child.rules),
    }
}

/// The rule of `rules` named `name`, if any (the first one).
pub open spec fn lookup(rules: Seq<Rule>, name: Seq<char>) -> Option<Rule> {
    match find_name(rule_names(rules), name) {
        Some(i) => Some(rules[i]),
        None => None,
    }
}

/// A name that occurs at position `i` of distinct names is found there.
pub proof fn lemma_find_distinct(names: Seq<Seq<char>>, i: int)
    requires
        distinct_names(names),
        0 <= i < names.len(),
    ensures
        find_name(names, names[i]) == Some(i),
{
    lemma_find_name(names, names[i]);
}

proof fn lemma_rule_names_push(rules: Seq<Rule>, r: Rule)
    ensures
        rule_names(rules.push(r)) == rule_names(rules).push(r.name@),
{
    assert(rule_names(rules.push(r)) =~= rule_names(rules).push(r.name@));
}

/// What one merge does, for base and child rules with distinct names: the
/// base's positions keep their names, lookups prefer the child, names stay
/// distinct, and a rule new to the child lands after every base rule.
pub proof fn lemma_merge_rules(base: Seq<Rule>, child: Seq<Rule>)
    requires
        distinct_names(rule_names(base)),
        distinct_names(rule_names(child)),
    ensures
        merge_rules(base, child).len() >= base.len(),
        forall|i: int|
            0 <= i < base.len() ==> #[trigger] merge_rules(base, child)[i].name@ == base[i].name@,
        distinct_names(rule_names(merge_rules(base, child))),
        forall|n: Seq<char>|
            #[trigger] lookup(merge_rules(base, child), n) == if lookup(child, n) is Some {
                lookup(child, n)
            } else {
                lookup(base, n)
            },
        forall|i: int|
            0 <= i < merge_rules(base, child).len() ==> {
                let n = #[trigger] merge_rules(base, child)[i].name@;
                find_name(rule_names(base), n) is Some || find_name(rule_names(child), n) is Some
            },
        forall|j: int|
            0 <= j < child.len() && #[trigger] lookup(base, child[j].name@) is None ==> exists|
                i: int,
            |
                base.len() <= i < merge_rules(base, child).len() && #[trigger] merge_rules(
                    base,
                    child,
                )[i] == child[j],
    decreases child.len(),
{
    let m = merge_rules(base, child);
    if child.len() == 0 {
        assert forall|n: Seq<char>| #[trigger] lookup(m, n) == lookup(base, n) by {
            lemma_find_name(rule_names(child), n);
        }
        assert forall|i: int| 0 <= i < m.len() implies {
            let n = #[trigger] m[i].name@;
            find_name(rule_names(base), n) is Some || find_name(rule_names(child), n) is Some
        } by {
            lemma_find_name(rule_names(base), m[i].name@);
            assert(rule_names(base)[i] == m[i].name@);
        }
    } else {
        let cp = child.drop_last();
        let r = child.last();
        assert(rule_names(cp) =~= rule_names(child).drop_last());
        assert(rule_names(child) =~= rule_names(cp).push(r.name@));
        assert(distinct_names(rule_names(cp)));
        lemma_merge_rules(base, cp);
        let mp = merge_rules(base, cp);
        lemma_find_name(rule_names(base), r.name@);
        lemma_find_name(rule_names(cp), r.name@);
        lemma_find_name(rule_names(mp), r.name@);
        // the last child rule has a name that no earlier child rule has
        assert forall|j: int| 0 <= j < cp.len() implies cp[j].name@ != r.name@ by {
            assert(rule_names(child)[j] == cp[j].name@);
            assert(rule_names(child)[child.len() - 1] == r.name@);
        }
        assert(find_name(rule_names(cp), r.name@) is None);
        match find_name(rule_names(base), r.name@) {
            Some(k) => {
                assert(m == mp.update(k, r));
                assert(mp[k].name@ == base[k].name@);
                assert(rule_names(m) =~= rule_names(mp));
                assert forall|n: Seq<char>| #[trigger]
                    lookup(m, n) == if lookup(child, n) is Some {
                        lookup(child, n)
                    } else {
                        lookup(base, n)
                    } by {
                    lemma_find_name(rule_names(mp), n);
                    lemma_find_name(rule_names(cp), n);
                    assert(lookup(mp, n) == if lookup(cp, n) is Some {
                        lookup(cp, n)
                    } else {
                        lookup(base, n)
                    });
                    if n == r.name@ {
                        lemma_find_distinct(rule_names(mp), k);
                        assert(rule_names(mp)[k] == n);
                        assert(find_name(rule_names(child), n) == Some(child.len() - 1));
                    } else {
                        assert(find_name(rule_names(child), n) == find_name(rule_names(cp), n));
                        match find_name(rule_names(mp), n) {
                            Some(q) => {
                                assert(rule_names(mp)[q] == n);
                                assert(q != k);
                            },
                            None => {},
                        }
                    }
                }
                assert forall|j: int|
                    0 <= j < child.len() && #[trigger] lookup(base, child[j].name@)
                        is None implies exists|i: int|
                    base.len() <= i < m.len() && #[trigger] m[i] == child[j] by {
                    if j == child.len() - 1 {
                        assert(false);
                    } else {
                        assert(child[j] == cp[j]);
                        let i = choose|i: int| base.len() <= i < mp.len() && #[trigger] mp[i] == cp[j];
                        assert(m[i] == child[j]);
                    }
                }
                assert forall|i: int| 0 <= i < m.len() implies {
                    let n = #[trigger] m[i].name@;
                    find_name(rule_names(base), n) is Some || find_name(rule_names(child), n) is Some
                } by {
                    let n = m[i].name@;
                    assert(rule_names(mp)[i] == n);
                    lemma_find_name(rule_names(cp), n);
                    lemma_find_name(rule_names(child), n);
                    if i != k {
                        assert(m[i] == mp[i]);
                        if find_name(rule_names(cp), n) is Some {
                            let q = find_name(rule_names(cp), n).unwrap();
                            assert(rule_names(child)[q] == n);
                        }
                    }
                }
            },
            None => {
                assert(m == mp.push(r));
                lemma_rule_names_push(mp, r);
                assert(rule_names(m).drop_last() =~= rule_names(mp));
                // the appended name occurs nowhere in the merged prefix
                assert forall|i: int| 0 <= i < mp.len() implies mp[i].name@ != r.name@ by {
                    let n = mp[i].name@;
                    lemma_find_name(rule_names(base), n);
                    lemma_find_name(rule_names(cp), n);
                    if n == r.name@ {
                        assert(find_name(rule_names(base), n) is Some || find_name(rule_names(cp), n) is Some);
                    }
                }
                assert forall|n: Seq<char>| #[trigger]
                    lookup(m, n) == if lookup(child, n) is Some {
                        lookup(child, n)
                    } else {
                        lookup(base, n)
                    } by {
                    lemma_find_name(rule_names(mp), n);
                    lemma_find_name(rule_names(cp), n);
                    if n == r.name@ {
                        assert(find_name(rule_names(mp), n) is None) by {
                            if find_name(rule_names(mp), n) is Some {
                                let q = find_name(rule_names(mp), n).unwrap();
                                assert(rule_names(mp)[q] == mp[q].name@);
                            }
                        }
                        assert(find_name(rule_names(m), n) == Some(mp.len() as int));
                        assert(find_name(rule_names(child), n) == Some(child.len() - 1));
                    } else {
                        assert(find_name(rule_names(child), n) == find_name(rule_names(cp), n));
                        assert(find_name(rule_names(m), n) == find_name(rule_names(mp), n));
                        assert(lookup(mp, n) == if lookup(cp, n) is Some {
                            lookup(cp, n)
                        } else {
                            lookup(base, n)
                        });
                        match find_name(rule_names(cp), n) {
                            Some(q) => {
                                assert(child[q] == cp[q]);
                            },
                            None => {},
                        }
                        match find_name(rule_names(mp), n) {
                            Some(q) => {
                                assert(m[q] == mp[q]);
                            },
                            None => {},
                        }
                    }
                }
                assert forall|j: int|
                    0 <= j < child.len() && #[trigger] lookup(base, child[j].name@)
                        is None implies exists|i: int|
                    base.len() <= i < m.len() && #[trigger] m[i] == child[j] by {
                    if j == child.len() - 1 {
                        assert(m[mp.len() as int] == child[j]);
                    } else {
                        assert(child[j] == cp[j]);
                        let i = choose|i: int| base.len() <= i < mp.len() && #[trigger] mp[i] == cp[j];
                        assert(m[i] == child[j]);
                    }
                }
                assert forall|i: int| 0 <= i < m.len() implies {
                    let n = #[trigger] m[i].name@;
                    find_name(rule_names(base), n) is Some || find_name(rule_names(child), n) is Some
                } by {
                    let n = m[i].name@;
                    lemma_find_name(rule_names(cp), n);
                    lemma_find_name(rule_names(child), n);
                    if i < mp.len() {
                        assert(m[i] == mp[i]);
                        if find_name(rule_names(cp), n) is Some {
                            let q = find_name(rule_names(cp), n).unwrap();
                            assert(rule_names(child)[q] == n);
                        }
                    } else {
                        assert(rule_names(child)[child.len() - 1] == n);
                    }
                }
            },
        }
    }
}

} // verus!

verus! {

/// Why a grammar could not be resolved.
pub ghost enum ResolveFailure {
    /// No grammar of this name was supplied.
    Missing(Seq<char>),
    /// The chain of names, ending with the name that comes back.
    Cycle(Seq<Seq<char>>),
}

/// The names of the supplied grammars, in order.
pub open spec fn grammar_names(loaded: Seq<GrammarDefinition>) -> Seq<Seq<char>> {
    loaded.map_values(|g: GrammarDefinition| g.name@)
}

/// Resolves the grammar `name` among `loaded` (the first one of that name),
/// when the names in `visited` led to it. A grammar without a parent is
/// returned as it is; otherwise its parent is resolved first and the grammar
/// is merged into it. The second component lists, in order, the rules that
/// were overridden on the way.
pub open spec fn resolve_spec(
    loaded: Seq<GrammarDefinition>,
    name: Seq<char>,
    visited: Seq<Seq<char>>,
) -> Result<(GrammarView, Seq<Seq<char>>), ResolveFailure>
    decreases loaded.len() - visited.len(),
{
    match find_name(grammar_names(loaded), name) {
        None => Err(ResolveFailure::Missing(name)),
        Some(i) => {
            let leaf = loaded[i]@;
            match leaf.inherits {
                None => Ok((leaf, Seq::empty())),
                Some(p) => {
                    let seen = visited.push(name);
                    if seen.contains(p) {
                        Err(ResolveFailure::Cycle(seen.push(p)))
                    } else if seen.len() >= loaded.len() {
                        // every supplied grammar is already on the chain
                        Err(ResolveFailure::Missing(p))
                    } else {
                        match resolve_spec(loaded, p, seen) {
                            Ok((base, notes)) => Ok(
                                (merge_view(base, leaf), notes + overridden(base.rules, leaf.rules)),
                            ),
                            Err(e) => Err(e),
                        }
                    }
                },
            }
        },
    }
}

/// A flattened grammar and the names of the rules that were overridden while
/// it was flattened, in order.
#[derive(Debug, PartialEq, Eq)]
pub struct Resolution {
    pub grammar: GrammarDefinition,
    pub notes: Vec<String>,
}

/// Where the source of grammar `name` lives under `base`.
pub open spec fn file_path(base: Seq<char>, name: Seq<char>) -> Seq<char> {
    base + "/"@ + name + ".grammar"@
}

/// `r` is what `resolve_spec` describes; a missing grammar is reported by
/// the path of its source under `base`.
pub open spec fn resolution_matches(
    r: Result<Resolution, GrammarError>,
    s: Result<(GrammarView, Seq<Seq<char>>), ResolveFailure>,
    base: Seq<char>,
) -> bool {
    match s {
        Ok((g, notes)) => r is Ok && r->Ok_0.grammar@ == g && views_of(r->Ok_0.notes@) == notes,
        Err(ResolveFailure::Missing(n)) => match r {
            Err(GrammarError::GrammarFileNotFound(m)) => m@ == file_path(base, n),
            _ => false,
        },
        Err(ResolveFailure::Cycle(chain)) => match r {
            Err(GrammarError::GrammarCycleError(c)) => views_of(c@) == chain,
            _ => false,
        },
    }
}

/// Merges `child` into `base`: a child rule replaces the base rule of the same
/// name at its position, any other child rule is appended. The result carries
/// the child's name and no parent. The name of each replacing rule is
/// appended to `notes`.
pub fn merge(base: GrammarDefinition, child: GrammarDefinition, notes: &mut Vec<String>) -> (r:
    GrammarDefinition)
    ensures
        r@ == merge_view(base@, child@),
        views_of(final(notes)@) == views_of(old(notes)@) + overridden(base@.rules, child@.rules),
{
    let ghost base_v = base@;
    let ghost child_v = child@;
    let GrammarDefinition { name, inherits: _, implicit_whitespace, options: _, rules: child_rules } =
        child;
    let GrammarDefinition { name: _, inherits: _, implicit_whitespace: _, options, rules } = base;
    let mut rules = rules;
    let mut base_names: Vec<String> = Vec::new();
    let mut i: usize = 0;
    while i < rules.len()
        invariant
            0 <= i <= rules.len(),
            base_names@.len() == i,
            forall|j: int| 0 <= j < i ==> #[trigger] base_names@[j]@ == rules@[j].name@,
        decreases rules.len() - i,
    {
        base_names.push(rules[i].name.clone());
        i = i + 1;
    }
    assert(views_of(base_names@) =~= rule_names(rules@));
    let ghost base_rules = rules@;
    let ghost old_notes = views_of(notes@);
    let mut rest = child_rules;
    let ghost cr = rest@;
    let mut k: usize = 0;
    let len = rest.len();
    assert(cr.take(0) =~= Seq::<Rule>::empty());
    assert(old_notes + overridden(base_rules, cr.take(0)) =~= old_notes);
    while rest.len() > 0
        invariant
            k <= cr.len(),
            cr.len() == len,
            rest@ == cr.skip(k as int),
            views_of(base_names@) == rule_names(base_rules),
            rules@ == merge_rules(base_rules, cr.take(k as int)),
            views_of(notes@) == old_notes + overridden(base_rules, cr.take(k as int)),
        decreases rest.len(),
    {
        let r = rest.remove(0);
        assert(r == cr[k as int]);
        assert(cr.take(k + 1).drop_last() =~= cr.take(k as int));
        assert(cr.skip(k + 1) =~= cr.skip(k as int).remove(0));
        let ghost prev = notes@;
        proof {
            lemma_merge_len(base_rules, cr.take(k as int));
        }
        match find_name_in(&base_names, &r.name) {
            Some(idx) => {
                proof {
                    lemma_find_name(rule_names(base_rules), r.name@);
                }
                notes.push(r.name.clone());
                assert(views_of(notes@) =~= views_of(prev).push(r.name@));
                rules.set(idx, r);
            },
            None => {
                rules.push(r);
            },
        }
        k = k + 1;
    }
    assert(cr.take(k as int) =~= cr);
    GrammarDefinition { name, inherits: None, implicit_whitespace, options, rules }
}

proof fn lemma_merge_len(base: Seq<Rule>, child: Seq<Rule>)
    ensures
        merge_rules(base, child).len() >= base.len(),
    decreases child.len(),
{
    if child.len() > 0 {
        lemma_merge_len(base, child.drop_last());
        lemma_find_name(rule_names(base), child.last().name@);
    }
}

fn path_of(base: &String, name: &str) -> (r: String)
    ensures
        r@ == file_path(base@, name@),
{
    let mut path = base.clone();
    path.append("/");
    path.append(name);
    path.append(".grammar");
    path
}

/// Locates grammar sources by name and flattens inheritance chains.
pub struct GrammarResolver {
    pub base_path: String,
}

/// Some supplied grammar is named `seen[k]` and the first one stands at `j`.
pub open spec fn taken(loaded: Seq<GrammarDefinition>, seen: Seq<Seq<char>>, j: int) -> bool {
    exists|k: int| 0 <= k < seen.len() && #[trigger] find_name(grammar_names(loaded), seen[k]) == Some(j)
}

fn take_slot(loaded: &mut Vec<GrammarDefinition>, i: usize) -> (g: GrammarDefinition)
    requires
        i < old(loaded)@.len(),
    ensures
        g == old(loaded)@[i as int],
        final(loaded)@.len() == old(loaded)@.len(),
        forall|j: int| 0 <= j < old(loaded)@.len() && j != i ==> final(loaded)@[j] == old(loaded)@[j],
{
    loaded.push(
        GrammarDefinition {
            name: String::new(),
            inherits: None,
            implicit_whitespace: false,
            options: Vec::new(),
            rules: Vec::new(),
        },
    );
    loaded.swap_remove(i)
}

fn resolve_from(
    base: &String,
    loaded: &mut Vec<GrammarDefinition>,
    names: &Vec<String>,
    name: String,
    visited: &mut Vec<String>,
    Ghost(orig): Ghost<Seq<GrammarDefinition>>,
) -> (r: Result<Resolution, GrammarError>)
    requires
        old(loaded)@.len() == orig.len(),
        views_of(names@) == grammar_names(orig),
        !views_of(old(visited)@).contains(name@),
        forall|j: int|
            0 <= j < orig.len() && !taken(orig, views_of(old(visited)@), j) ==> old(loaded)@[j]
                == orig[j],
    ensures
        resolution_matches(r, resolve_spec(orig, name@, views_of(old(visited)@)), base@),
    decreases orig.len() - visited@.len(),
{
    let ghost seen0 = views_of(visited@);
    proof {
        lemma_find_name(grammar_names(orig), name@);
    }
    match find_name_in(names, &name) {
        None => Err(GrammarError::GrammarFileNotFound(path_of(base, name.as_str()))),
        Some(i) => {
            assert(!taken(orig, seen0, i as int)) by {
                if taken(orig, seen0, i as int) {
                    let k = choose|k: int|
                        0 <= k < seen0.len() && #[trigger] find_name(grammar_names(orig), seen0[k])
                            == Some(i as int);
                    lemma_find_name(grammar_names(orig), seen0[k]);
                }
            }
            let parent = match &loaded[i].inherits {
                Some(p) => Some(p.clone()),
                None => None,
            };
            let leaf = take_slot(loaded, i);
            assert(leaf == orig[i as int]);
            match parent {
                None => {
                    let notes: Vec<String> = Vec::new();
                    assert(views_of(notes@) =~= Seq::empty());
                    Ok(Resolution { grammar: leaf, notes })
                },
                Some(p) => {
                    visited.push(name);
                    let ghost seen = views_of(visited@);
                    assert(seen =~= seen0.push(name@));
                    proof {
                        lemma_find_name(seen, p@);
                    }
                    if find_name_in(visited, &p).is_some() {
                        let mut chain = Vec::new();
                        std::mem::swap(&mut chain, visited);
                        chain.push(p);
                        assert(views_of(chain@) =~= seen.push(p@));
                        Err(GrammarError::GrammarCycleError(chain))
                    } else if visited.len() >= loaded.len() {
                        Err(GrammarError::GrammarFileNotFound(path_of(base, p.as_str())))
                    } else {
                        assert forall|j: int|
                            0 <= j < orig.len() && !taken(orig, seen, j) implies loaded@[j]
                            == orig[j] by {
                            if j == i {
                                assert(seen[seen.len() - 1] == name@);
                                assert(find_name(grammar_names(orig), seen[seen.len() - 1]) == Some(
                                    j,
                                ));
                            } else if taken(orig, seen0, j) {
                                let k = choose|k: int|
                                    0 <= k < seen0.len() && #[trigger] find_name(
                                        grammar_names(orig),
                                        seen0[k],
                                    ) == Some(j);
                                assert(seen[k] == seen0[k]);
                            }
                        }
                        match resolve_from(base, loaded, names, p, visited, Ghost(orig)) {
                            Ok(res) => {
                                let Resolution { grammar: base, notes } = res;
                                let mut notes = notes;
                                let merged = merge(base, leaf, &mut notes);
                                Ok(Resolution { grammar: merged, notes })
                            },
                            Err(e) => Err(e),
                        }
                    }
                },
            }
        },
    }
}

impl GrammarResolver {
    /// A resolver whose grammar sources live under `base_path`.
    pub fn new(base_path: &str) -> (r: Self)
        ensures
            r.base_path@ == base_path@,
    {
        GrammarResolver { base_path: String::from_str(base_path) }
    }

    /// Where the source of the grammar `grammar_name` lives:
    /// `<base_path>/<grammar_name>.grammar`.
    pub fn grammar_file(&self, grammar_name: &str) -> (r: String)
        ensures
            r@ == file_path(self.base_path@, grammar_name@),
    {
        path_of(&self.base_path, grammar_name)
    }

    /// Flattens the grammar `name` among the supplied grammar definitions:
    /// its ancestors are resolved first, then each descendant is merged into
    /// the result, down to `name`. Fails when a grammar on the chain was not
    /// supplied (naming the file it would have come from), or when the chain
    /// comes back to a name it has passed.
    pub fn resolve(&self, name: &str, loaded: Vec<GrammarDefinition>) -> (r: Result<
        Resolution,
        GrammarError,
    >)
        ensures
            resolution_matches(r, resolve_spec(loaded@, name@, Seq::empty()), self.base_path@),
    {
        let mut loaded = loaded;
        let mut names: Vec<String> = Vec::new();
        let mut i: usize = 0;
        while i < loaded.len()
            invariant
                0 <= i <= loaded.len(),
                names@.len() == i,
                forall|j: int| 0 <= j < i ==> #[trigger] names@[j]@ == loaded@[j].name@,
            decreases loaded.len() - i,
        {
            names.push(loaded[i].name.clone());
            i = i + 1;
        }
        assert(views_of(names@) =~= grammar_names(loaded@));
        let mut visited: Vec<String> = Vec::new();
        assert(views_of(visited@) =~= Seq::<Seq<char>>::empty());
        let ghost orig = loaded@;
        resolve_from(
            &self.base_path,
            &mut loaded,
            &names,
            String::from_str(name),
            &mut visited,
            Ghost(orig),
        )
    }
}

/// A grammar without a parent resolves to itself, with nothing overridden.
pub proof fn lemma_resolve_without_parent(loaded: Seq<GrammarDefinition>, i: int)
    requires
        distinct_names(grammar_names(loaded)),
        0 <= i < loaded.len(),
        loaded[i].inherits is None,
    ensures
        resolve_spec(loaded, loaded[i].name@, Seq::empty()) == Ok::<
            (GrammarView, Seq<Seq<char>>),
            ResolveFailure,
        >((loaded[i]@, Seq::empty())),
{
    assert(grammar_names(loaded)[i] == loaded[i].name@);
    lemma_find_distinct(grammar_names(loaded), i);
}

/// Resolving a grammar with a parent in one pass equals resolving the parent
/// first (with the grammar on the chain, so that a way back to it is a cycle)
/// and then merging the grammar into that result.
pub proof fn lemma_resolve_through_parent(loaded: Seq<GrammarDefinition>, i: int)
    requires
        distinct_names(grammar_names(loaded)),
        0 <= i < loaded.len(),
        loaded[i].inherits is Some,
        loaded[i].inherits->Some_0@ != loaded[i].name@,
    ensures
        ({
            let leaf = loaded[i]@;
            resolve_spec(loaded, leaf.name, Seq::empty()) == match resolve_spec(
                loaded,
                leaf.inherits->Some_0,
                seq![leaf.name],
            ) {
                Ok((base, notes)) => Ok(
                    (merge_view(base, leaf), notes + overridden(base.rules, leaf.rules)),
                ),
                Err(e) => Err(e),
            }
        }),
{
    let leaf = loaded[i]@;
    let p = leaf.inherits->Some_0;
    assert(grammar_names(loaded)[i] == leaf.name);
    lemma_find_distinct(grammar_names(loaded), i);
    let seen = Seq::<Seq<char>>::empty().push(leaf.name);
    assert(seen =~= seq![leaf.name]);
    assert(!seen.contains(p)) by {
        assert(forall|k: int| 0 <= k < seen.len() ==> seen[k] == leaf.name);
    }
    if seen.len() >= loaded.len() {
        // the only supplied grammar is the leaf itself, so the parent is missing
        lemma_find_name(grammar_names(loaded), p);
        assert(grammar_names(loaded)[0] == loaded[0].name@);
    }
}

/// Override and extend across three generations `grandparent <- parent <-
/// child`, each with distinct rule names: the closest definition of a name
/// wins; the positions of the inherited rules, and so their relative order,
/// are kept, and a grandparent rule that nobody redefines stays as it was;
/// a rule new to the child comes after all inherited rules.
pub proof fn lemma_override_extend(gp: Seq<Rule>, p: Seq<Rule>, c: Seq<Rule>)
    requires
        distinct_names(rule_names(gp)),
        distinct_names(rule_names(p)),
        distinct_names(rule_names(c)),
    ensures
        ({
            let m1 = merge_rules(gp, p);
            let m2 = merge_rules(m1, c);
            &&& forall|n: Seq<char>|
                #[trigger] lookup(m2, n) == if lookup(c, n) is Some {
                    lookup(c, n)
                } else if lookup(p, n) is Some {
                    lookup(p, n)
                } else {
                    lookup(gp, n)
                }
            &&& gp.len() <= m1.len() <= m2.len()
            &&& forall|i: int| 0 <= i < m1.len() ==> #[trigger] m2[i].name@ == m1[i].name@
            &&& forall|i: int| 0 <= i < gp.len() ==> #[trigger] m2[i].name@ == gp[i].name@
            &&& forall|i: int|
                0 <= i < gp.len() && lookup(p, gp[i].name@) is None && lookup(c, gp[i].name@)
                    is None ==> #[trigger] m2[i] == gp[i]
            &&& forall|j: int|
                0 <= j < c.len() && lookup(gp, c[j].name@) is None && lookup(p, c[j].name@)
                    is None ==> exists|i: int| m1.len() <= i < m2.len() && #[trigger] m2[i] == c[j]
        }),
{
    let m1 = merge_rules(gp, p);
    let m2 = merge_rules(m1, c);
    lemma_merge_rules(gp, p);
    lemma_merge_rules(m1, c);
    assert forall|i: int|
        0 <= i < gp.len() && lookup(p, gp[i].name@) is None && lookup(c, gp[i].name@)
            is None implies #[trigger] m2[i] == gp[i] by {
        let n = gp[i].name@;
        assert(lookup(m2, n) == lookup(m1, n));
        assert(lookup(m1, n) == lookup(gp, n));
        assert(rule_names(gp)[i] == n);
        lemma_find_distinct(rule_names(gp), i);
        assert(m2[i].name@ == n);
        assert(rule_names(m2)[i] == n);
        lemma_find_distinct(rule_names(m2), i);
    }
    assert forall|j: int|
        0 <= j < c.len() && lookup(gp, c[j].name@) is None && lookup(p, c[j].name@)
            is None implies exists|i: int| m1.len() <= i < m2.len() && #[trigger] m2[i] == c[j] by {
        assert(lookup(m1, c[j].name@) is None);
    }
}

/// The names of `ys` that `xs` lacks, in the order of `ys`.
pub open spec fn fresh(xs: Seq<Seq<char>>, ys: Seq<Seq<char>>) -> Seq<Seq<char>>
    decreases ys.len(),
{
    if ys.len() == 0 {
        Seq::empty()
    } else if xs.contains(ys.last()) {
        fresh(xs, ys.drop_last())
    } else {
        fresh(xs, ys.drop_last()).push(ys.last())
    }
}

proof fn lemma_fresh_concat(a: Seq<Seq<char>>, x: Seq<Seq<char>>, y: Seq<Seq<char>>)
    ensures
        fresh(a, x + y) == fresh(a, x) + fresh(a, y),
    decreases y.len(),
{
    if y.len() == 0 {
        assert(x + y =~= x);
        assert(fresh(a, x) + fresh(a, y) =~= fresh(a, x));
    } else {
        assert((x + y).drop_last() =~= x + y.drop_last());
        assert((x + y).last() == y.last());
        lemma_fresh_concat(a, x, y.drop_last());
        if !a.contains(y.last()) {
            assert(fresh(a, x) + fresh(a, y.drop_last()).push(y.last()) =~= (fresh(a, x) + fresh(
                a,
                y.drop_last(),
            )).push(y.last()));
        }
    }
}

proof fn lemma_fresh_contains(a: Seq<Seq<char>>, b: Seq<Seq<char>>, n: Seq<char>)
    ensures
        fresh(a, b).contains(n) <==> b.contains(n) && !a.contains(n),
    decreases b.len(),
{
    if b.len() > 0 {
        let bp = b.drop_last();
        lemma_fresh_contains(a, bp, n);
        assert(b =~= bp.push(b.last()));
        assert(b.contains(n) <==> bp.contains(n) || b.last() == n) by {
            if b.contains(n) {
                let k = choose|k: int| 0 <= k < b.len() && b[k] == n;
                if k < bp.len() {
                    assert(bp[k] == n);
                }
            }
            if bp.contains(n) {
                let k = choose|k: int| 0 <= k < bp.len() && bp[k] == n;
                assert(b[k] == n);
            }
            if b.last() == n {
                assert(b[b.len() - 1] == n);
            }
        }
        if !a.contains(b.last()) {
            let f = fresh(a, bp);
            assert(f.push(b.last()).contains(n) <==> f.contains(n) || b.last() == n) by {
                if f.push(b.last()).contains(n) {
                    let k = choose|k: int| 0 <= k < f.len() + 1 && f.push(b.last())[k] == n;
                    if k < f.len() {
                        assert(f[k] == n);
                    }
                }
                if f.contains(n) {
                    let k = choose|k: int| 0 <= k < f.len() && f[k] == n;
                    assert(f.push(b.last())[k] == n);
                }
                if b.last() == n {
                    assert(f.push(b.last())[f.len() as int] == n);
                }
            }
        }
    }
}

proof fn lemma_fresh_same_members(a1: Seq<Seq<char>>, a2: Seq<Seq<char>>, c: Seq<Seq<char>>)
    requires
        forall|n: Seq<char>| c.contains(n) ==> (a1.contains(n) <==> a2.contains(n)),
    ensures
        fresh(a1, c) == fresh(a2, c),
    decreases c.len(),
{
    if c.len() > 0 {
        let cp = c.drop_last();
        assert forall|n: Seq<char>| cp.contains(n) implies (a1.contains(n) <==> a2.contains(n)) by {
            let k = choose|k: int| 0 <= k < cp.len() && cp[k] == n;
            assert(c[k] == n);
        }
        assert(c.contains(c.last())) by {
            assert(c[c.len() - 1] == c.last());
        }
        lemma_fresh_same_members(a1, a2, cp);
    }
}

proof fn lemma_fresh_fresh(a: Seq<Seq<char>>, b: Seq<Seq<char>>, c: Seq<Seq<char>>)
    ensures
        fresh(a, fresh(b, c)) == fresh(a + b, c),
    decreases c.len(),
{
    if c.len() > 0 {
        let cp = c.drop_last();
        let n = c.last();
        lemma_fresh_fresh(a, b, cp);
        assert((a + b).contains(n) <==> a.contains(n) || b.contains(n)) by {
            if (a + b).contains(n) {
                let k = choose|k: int| 0 <= k < (a + b).len() && (a + b)[k] == n;
                if k < a.len() {
                    assert(a[k] == n);
                } else {
                    assert(b[k - a.len()] == n);
                }
            }
            if a.contains(n) {
                let k = choose|k: int| 0 <= k < a.len() && a[k] == n;
                assert((a + b)[k] == n);
            }
            if b.contains(n) {
                let k = choose|k: int| 0 <= k < b.len() && b[k] == n;
                assert((a + b)[a.len() + k] == n);
            }
        }
        if !b.contains(n) {
            let f = fresh(b, cp);
            assert(f.push(n) =~= f + seq![n]);
            lemma_fresh_concat(a, f, seq![n]);
            let one = seq![n];
            assert(one.drop_last() =~= Seq::<Seq<char>>::empty());
            assert(one.last() == n);
            assert(fresh(a, one.drop_last()) == Seq::<Seq<char>>::empty());
            if !a.contains(n) {
                assert(fresh(a, seq![n]) =~= seq![n]);
                assert(fresh(a, f) + seq![n] =~= fresh(a, f).push(n));
            } else {
                assert(fresh(a, seq![n]) =~= Seq::<Seq<char>>::empty());
                assert(fresh(a, f) + Seq::<Seq<char>>::empty() =~= fresh(a, f));
            }
        }
    }
}

proof fn lemma_merge_names(base: Seq<Rule>, child: Seq<Rule>)
    ensures
        rule_names(merge_rules(base, child)) == rule_names(base) + fresh(
            rule_names(base),
            rule_names(child),
        ),
    decreases child.len(),
{
    if child.len() == 0 {
        assert(rule_names(base) + Seq::<Seq<char>>::empty() =~= rule_names(base));
    } else {
        let cp = child.drop_last();
        let r = child.last();
        let bn = rule_names(base);
        assert(rule_names(child).drop_last() =~= rule_names(cp));
        assert(rule_names(child).last() == r.name@);
        lemma_merge_names(base, cp);
        lemma_merge_len(base, cp);
        let acc = merge_rules(base, cp);
        lemma_find_name(bn, r.name@);
        assert(bn.contains(r.name@) <==> find_name(bn, r.name@) is Some) by {
            if bn.contains(r.name@) {
                let k = choose|k: int| 0 <= k < bn.len() && bn[k] == r.name@;
            }
        }
        match find_name(bn, r.name@) {
            Some(i) => {
                assert(rule_names(acc)[i] == bn[i]);
                assert(rule_names(acc.update(i, r)) =~= rule_names(acc));
            },
            None => {
                lemma_rule_names_push(acc, r);
                assert((bn + fresh(bn, rule_names(cp))).push(r.name@) =~= bn + fresh(
                    bn,
                    rule_names(cp),
                ).push(r.name@));
            },
        }
    }
}

/// Sequences of rules with distinct names that agree on the name at every
/// position and on every lookup are equal.
proof fn lemma_rules_equal(x: Seq<Rule>, y: Seq<Rule>)
    requires
        distinct_names(rule_names(x)),
        rule_names(x) == rule_names(y),
        forall|n: Seq<char>| #[trigger] lookup(x, n) == lookup(y, n),
    ensures
        x == y,
{
    assert(x.len() == rule_names(x).len());
    assert(y.len() == rule_names(y).len());
    assert forall|i: int| 0 <= i < x.len() implies x[i] == y[i] by {
        let n = rule_names(x)[i];
        lemma_find_distinct(rule_names(x), i);
        assert(lookup(x, n) == lookup(y, n));
    }
    assert(x =~= y);
}

/// Merging is associative on rule lists with distinct names: merging
/// `child` into the merge of `parent` into `grandparent` gives the same
/// rules as merging into `grandparent` the merge of `child` into `parent`.
pub proof fn lemma_merge_associative(gp: Seq<Rule>, p: Seq<Rule>, c: Seq<Rule>)
    requires
        distinct_names(rule_names(gp)),
        distinct_names(rule_names(p)),
        distinct_names(rule_names(c)),
    ensures
        merge_rules(merge_rules(gp, p), c) == merge_rules(gp, merge_rules(p, c)),
{
    let left = merge_rules(merge_rules(gp, p), c);
    let pc = merge_rules(p, c);
    let right = merge_rules(gp, pc);
    lemma_merge_rules(gp, p);
    lemma_merge_rules(merge_rules(gp, p), c);
    lemma_merge_rules(p, c);
    lemma_merge_rules(gp, pc);
    let a = rule_names(gp);
    let b = rule_names(p);
    let cn = rule_names(c);
    lemma_merge_names(gp, p);
    lemma_merge_names(merge_rules(gp, p), c);
    lemma_merge_names(p, c);
    lemma_merge_names(gp, pc);
    // left names: a + fresh(a, b) + fresh(a + fresh(a, b), cn)
    // right names: a + fresh(a, b + fresh(b, cn)) = a + fresh(a, b) + fresh(a + b, cn)
    lemma_fresh_concat(a, b, fresh(b, cn));
    lemma_fresh_fresh(a, b, cn);
    assert forall|n: Seq<char>| cn.contains(n) implies ((a + b).contains(n) <==> (a + fresh(
        a,
        b,
    )).contains(n)) by {
        lemma_fresh_contains(a, b, n);
        let f = fresh(a, b);
        assert((a + b).contains(n) <==> a.contains(n) || b.contains(n)) by {
            if (a + b).contains(n) {
                let k = choose|k: int| 0 <= k < (a + b).len() && (a + b)[k] == n;
                if k < a.len() {
                    assert(a[k] == n);
                } else {
                    assert(b[k - a.len()] == n);
                }
            }
            if a.contains(n) {
                let k = choose|k: int| 0 <= k < a.len() && a[k] == n;
                assert((a + b)[k] == n);
            }
            if b.contains(n) {
                let k = choose|k: int| 0 <= k < b.len() && b[k] == n;
                assert((a + b)[a.len() + k] == n);
            }
        }
        assert((a + f).contains(n) <==> a.contains(n) || f.contains(n)) by {
            if (a + f).contains(n) {
                let k = choose|k: int| 0 <= k < (a + f).len() && (a + f)[k] == n;
                if k < a.len() {
                    assert(a[k] == n);
                } else {
                    assert(f[k - a.len()] == n);
                }
            }
            if a.contains(n) {
                let k = choose|k: int| 0 <= k < a.len() && a[k] == n;
                assert((a + f)[k] == n);
            }
            if f.contains(n) {
                let k = choose|k: int| 0 <= k < f.len() && f[k] == n;
                assert((a + f)[a.len() + k] == n);
            }
        }
    }
    lemma_fresh_same_members(a + b, a + fresh(a, b), cn);
    assert(rule_names(left) =~= rule_names(right));
    assert forall|n: Seq<char>| #[trigger] lookup(left, n) == lookup(right, n) by {
        assert(lookup(left, n) == if lookup(c, n) is Some {
            lookup(c, n)
        } else {
            lookup(merge_rules(gp, p), n)
        });
        assert(lookup(right, n) == if lookup(pc, n) is Some {
            lookup(pc, n)
        } else {
            lookup(gp, n)
        });
        assert(lookup(pc, n) == if lookup(c, n) is Some {
            lookup(c, n)
        } else {
            lookup(p, n)
        });
        assert(lookup(merge_rules(gp, p), n) == if lookup(p, n) is Some {
            lookup(p, n)
        } else {
            lookup(gp, n)
        });
    }
    lemma_rules_equal(left, right);
}

/// Resolving a three-generation chain is associative: merging the child
/// into the merged parent and grandparent equals merging into the
/// grandparent the child already merged into the parent.
pub proof fn lemma_merge_view_associative(gp: GrammarView, p: GrammarView, c: GrammarView)
    requires
        distinct_names(rule_names(gp.rules)),
        distinct_names(rule_names(p.rules)),
        distinct_names(rule_names(c.rules)),
    ensures
        merge_view(merge_view(gp, p), c) == merge_view(gp, merge_view(p, c)),
{
    lemma_merge_associative(gp.rules, p.rules, c.rules);
}

/// Once resolved, a grammar has no parent left, and when every supplied
/// grammar has distinct rule names, so does the result.
pub proof fn lemma_resolved_is_flat(
    loaded: Seq<GrammarDefinition>,
    name: Seq<char>,
    visited: Seq<Seq<char>>,
)
    requires
        forall|i: int| 0 <= i < loaded.len() ==> distinct_names(rule_names(#[trigger] loaded[i]@.rules)),
    ensures
        resolve_spec(loaded, name, visited) is Ok ==> {
            let g = resolve_spec(loaded, name, visited)->Ok_0.0;
            &&& g.inherits is None
            &&& distinct_names(rule_names(g.rules))
        },
    decreases loaded.len() - visited.len(),
{
    match find_name(grammar_names(loaded), name) {
        None => {},
        Some(i) => {
            lemma_find_name(grammar_names(loaded), name);
            let leaf = loaded[i]@;
            match leaf.inherits {
                None => {},
                Some(p) => {
                    let seen = visited.push(name);
                    if !seen.contains(p) && seen.len() < loaded.len() {
                        lemma_resolved_is_flat(loaded, p, seen);
                        match resolve_spec(loaded, p, seen) {
                            Ok((base, notes)) => {
                                lemma_merge_rules(base.rules, leaf.rules);
                            },
                            Err(_) => {},
                        }
                    }
                },
            }
        },
    }
}

/// Distinct names of supplied grammars are no more than the grammars.
proof fn lemma_found_names_bounded(loaded: Seq<GrammarDefinition>, s: Seq<Seq<char>>)
    requires
        s.no_duplicates(),
        forall|k: int| 0 <= k < s.len() ==> #[trigger] find_name(grammar_names(loaded), s[k]) is Some,
    ensures
        s.len() <= loaded.len(),
{
    let names = grammar_names(loaded);
    let idx = s.map_values(|x: Seq<char>| find_name(names, x)->Some_0);
    assert forall|k: int| 0 <= k < s.len() implies 0 <= #[trigger] idx[k] < loaded.len() && names[idx[k]]
        == s[k] by {
        lemma_find_name(names, s[k]);
    }
    assert(idx.no_duplicates()) by {
        assert forall|a: int, b: int| 0 <= a < idx.len() && 0 <= b < idx.len() && a != b implies idx[a]
            != idx[b] by {
            if idx[a] == idx[b] {
                assert(s[a] == names[idx[a]]);
                assert(s[b] == names[idx[b]]);
            }
        }
    }
    idx.unique_seq_to_set();
    vstd::set_lib::lemma_int_range(0, loaded.len() as int);
    assert(idx.to_set().subset_of(vstd::set_lib::set_int_range(0, loaded.len() as int))) by {
        assert forall|x: int| idx.to_set().contains(x) implies vstd::set_lib::set_int_range(
            0,
            loaded.len() as int,
        ).contains(x) by {
            let k = choose|k: int| 0 <= k < idx.len() && idx[k] == x;
        }
    }
    vstd::set_lib::lemma_len_subset(idx.to_set(), vstd::set_lib::set_int_range(0, loaded.len() as int));
}

/// Putting on the chain, ahead of the names already there, a grammar whose
/// parent is the grammar being resolved (or already on the chain) changes
/// nothing about a resolution that succeeds.
proof fn lemma_resolve_extra_visited(
    loaded: Seq<GrammarDefinition>,
    n: Seq<char>,
    v: Seq<Seq<char>>,
    c: Seq<char>,
)
    requires
        resolve_spec(loaded, n, v) is Ok,
        !v.contains(n),
        find_name(grammar_names(loaded), c) is Some,
        loaded[find_name(grammar_names(loaded), c)->Some_0].inherits is Some,
        ({
            let q = loaded[find_name(grammar_names(loaded), c)->Some_0].inherits->Some_0@;
            q == n || v.contains(q)
        }),
        (seq![c] + v).no_duplicates(),
        forall|k: int|
            0 <= k < (seq![c] + v).len() ==> #[trigger] find_name(
                grammar_names(loaded),
                (seq![c] + v)[k],
            ) is Some,
    ensures
        resolve_spec(loaded, n, seq![c] + v) == resolve_spec(loaded, n, v),
    decreases loaded.len() - v.len(),
{
    let names = grammar_names(loaded);
    let ic = find_name(names, c)->Some_0;
    let q = loaded[ic].inherits->Some_0@;
    let i = find_name(names, n)->Some_0;
    lemma_find_name(names, n);
    lemma_find_name(names, c);
    assert(names[ic] == loaded[ic].name@);
    assert(names[i] == loaded[i].name@);
    let leaf = loaded[i]@;
    let w = seq![c] + v;
    assert forall|x: Seq<char>| w.contains(x) <==> (x == c || v.contains(x)) by {
        if w.contains(x) {
            let k = choose|k: int| 0 <= k < w.len() && w[k] == x;
            if k > 0 {
                assert(v[k - 1] == x);
            }
        }
        if x == c {
            assert(w[0] == x);
        }
        if v.contains(x) {
            let k = choose|k: int| 0 <= k < v.len() && v[k] == x;
            assert(w[k + 1] == x);
        }
    }
    // n is not c: c's parent is already on the chain, so resolving c here fails
    if n == c {
        assert(i == ic);
        let seen = v.push(n);
        assert(seen.contains(q)) by {
            if q == n {
                assert(seen[v.len() as int] == q);
            } else {
                let k = choose|k: int| 0 <= k < v.len() && v[k] == q;
                assert(seen[k] == q);
            }
        }
        assert(false);
    }
    match leaf.inherits {
        None => {},
        Some(p) => {
            let seen1 = v.push(n);
            let seen2 = w.push(n);
            assert(seen2 =~= seq![c] + seen1);
            assert forall|x: Seq<char>| seen1.contains(x) <==> (x == n || v.contains(x)) by {
                if seen1.contains(x) {
                    let k = choose|k: int| 0 <= k < seen1.len() && seen1[k] == x;
                    if k < v.len() {
                        assert(v[k] == x);
                    }
                }
                if x == n {
                    assert(seen1[v.len() as int] == x);
                }
                if v.contains(x) {
                    let k = choose|k: int| 0 <= k < v.len() && v[k] == x;
                    assert(seen1[k] == x);
                }
            }
            assert(!seen1.contains(p));
            assert(seen1.len() < loaded.len());
            assert(resolve_spec(loaded, p, seen1) is Ok);
            lemma_find_name(names, p);
            let ip = find_name(names, p)->Some_0;
            // p is not c either: the chain would come back to c's parent
            if p == c {
                assert(ip == ic);
                let seen3 = seen1.push(p);
                assert(seen3.contains(q)) by {
                    if q == n {
                        assert(seen3[v.len() as int] == q);
                    } else {
                        let k = choose|k: int| 0 <= k < v.len() && v[k] == q;
                        assert(seen3[k] == q);
                    }
                }
                assert(names[ip] == loaded[ip].name@);
                assert(false);
            }
            // the chain with c and p added still fits among the supplied grammars
            let all = seen2.push(p);
            assert(all.no_duplicates()) by {
                assert forall|a: int, b: int| 0 <= a < b < all.len() implies all[a] != all[b] by {
                    if b == all.len() - 1 {
                        if a == 0 {
                            assert(all[a] == c);
                        } else if a < w.len() {
                            assert(all[a] == v[a - 1]);
                            assert(v.contains(v[a - 1]));
                        } else {
                            assert(all[a] == n);
                        }
                    } else if b == all.len() - 2 {
                        if a == 0 {
                            assert(all[a] == c);
                        } else {
                            assert(all[a] == v[a - 1]);
                            assert(v.contains(v[a - 1]));
                        }
                    } else {
                        assert(all[a] == w[a]);
                        assert(all[b] == w[b]);
                    }
                }
            }
            assert forall|k: int| 0 <= k < all.len() implies #[trigger] find_name(names, all[k]) is Some by {
                if k < w.len() {
                    assert(all[k] == w[k]);
                } else if k == w.len() {
                    assert(all[k] == n);
                } else {
                    assert(all[k] == p);
                }
            }
            lemma_found_names_bounded(loaded, all);
            assert(!seen2.contains(p)) by {
                if seen2.contains(p) {
                    let k = choose|k: int| 0 <= k < seen2.len() && seen2[k] == p;
                    assert(all[k] == p);
                    assert(all[all.len() - 1] == p);
                }
            }
            // recurse with n now on the chain
            assert((seq![c] + seen1).no_duplicates()) by {
                assert forall|a: int, b: int| 0 <= a < b < seen2.len() implies seen2[a] != seen2[b] by {
                    assert(all[a] == seen2[a]);
                    assert(all[b] == seen2[b]);
                }
            }
            assert forall|k: int| 0 <= k < (seq![c] + seen1).len() implies #[trigger] find_name(
                names,
                (seq![c] + seen1)[k],
            ) is Some by {
                assert(all[k] == seen2[k]);
            }
            assert(seen1.contains(q)) by {
                if q == n {
                    assert(seen1[v.len() as int] == q);
                } else {
                    let k = choose|k: int| 0 <= k < v.len() && v[k] == q;
                    assert(seen1[k] == q);
                }
            }
            lemma_resolve_extra_visited(loaded, p, seen1, c);
        },
    }
}

/// Resolving a grammar with a parent in one pass equals resolving the parent
/// on its own first and then merging the grammar into that result, for a
/// chain of any length.
pub proof fn lemma_resolve_parent_first(loaded: Seq<GrammarDefinition>, i: int)
    requires
        distinct_names(grammar_names(loaded)),
        0 <= i < loaded.len(),
        loaded[i].inherits is Some,
        resolve_spec(loaded, loaded[i].inherits->Some_0@, Seq::empty()) is Ok,
    ensures
        ({
            let leaf = loaded[i]@;
            let (base, notes) = resolve_spec(loaded, leaf.inherits->Some_0, Seq::empty())->Ok_0;
            resolve_spec(loaded, leaf.name, Seq::empty()) == Ok::<
                (GrammarView, Seq<Seq<char>>),
                ResolveFailure,
            >((merge_view(base, leaf), notes + overridden(base.rules, leaf.rules)))
        }),
{
    let names = grammar_names(loaded);
    let leaf = loaded[i]@;
    let c = leaf.name;
    let p = leaf.inherits->Some_0;
    assert(names[i] == c);
    lemma_find_distinct(names, i);
    let e = Seq::<Seq<char>>::empty();
    assert(!e.contains(p));
    assert((seq![c] + e) =~= seq![c]);
    assert(seq![c].no_duplicates());
    assert(e.push(c) =~= seq![c]);
    lemma_resolve_extra_visited(loaded, p, e, c);
    // the parent is not the grammar itself, else resolving it would cycle
    lemma_find_name(names, p);
    let ip = find_name(names, p)->Some_0;
    assert(names[ip] == loaded[ip].name@);
    if p == c {
        assert(ip == i);
        assert(seq![c].contains(p)) by {
            assert(seq![c][0] == p);
        }
        assert(e.push(p) =~= seq![c]);
        assert(false);
    }
    assert(!seq![c].contains(p)) by {
        if seq![c].contains(p) {
            let k = choose|k: int| 0 <= k < 1 && seq![c][k] == p;
        }
    }
    let both = seq![c, p];
    assert(both.no_duplicates());
    assert forall|k: int| 0 <= k < both.len() implies #[trigger] find_name(names, both[k]) is Some by {
        if k == 1 {
            assert(both[k] == p);
        } else {
            assert(both[k] == c);
        }
    }
    lemma_found_names_bounded(loaded, both);
}

/// A chain `grandparent <- parent <- child` resolves to the child merged
/// into the parent merged into the grandparent.
pub proof fn lemma_resolve_chain(loaded: Seq<GrammarDefinition>, ig: int, ip: int, ic: int)
    requires
        distinct_names(grammar_names(loaded)),
        0 <= ig < loaded.len(),
        0 <= ip < loaded.len(),
        0 <= ic < loaded.len(),
        loaded[ig].inherits is None,
        loaded[ip].inherits is Some,
        loaded[ip].inherits->Some_0@ == loaded[ig].name@,
        loaded[ic].inherits is Some,
        loaded[ic].inherits->Some_0@ == loaded[ip].name@,
    ensures
        resolve_spec(loaded, loaded[ic].name@, Seq::empty()) is Ok,
        resolve_spec(loaded, loaded[ic].name@, Seq::empty())->Ok_0.0 == merge_view(
            merge_view(loaded[ig]@, loaded[ip]@),
            loaded[ic]@,
        ),
{
    lemma_resolve_without_parent(loaded, ig);
    lemma_resolve_parent_first(loaded, ip);
    lemma_resolve_parent_first(loaded, ic);
}

} // verus!
