use vstd::prelude::*;

verus! {

/// Dense ids for names: the n-th distinct name seen receives id n - 1.
pub struct SymbolTable {
    pub names: Vec<String>,
}

/// No name occurs twice in `names`.
pub open spec fn distinct_names(names: Seq<Seq<char>>) -> bool {
    forall|i: int, j: int| 0 <= i < j < names.len() ==> names[i] != names[j]
}

/// The table after resolving `name`, and the id handed out.
pub open spec fn resolve_spec(names: Seq<Seq<char>>, name: Seq<char>) -> (Seq<Seq<char>>, nat) {
    if names.contains(name) {
        (names, names.index_of(name) as nat)
    } else {
        (names.push(name), names.len())
    }
}

impl View for SymbolTable {
    type V = Seq<Seq<char>>;

    open spec fn view(&self) -> Seq<Seq<char>> {
        self.names@.map_values(|s: String| s@)
    }
}

impl SymbolTable {
    pub open spec fn wf(&self) -> bool {
        distinct_names(self@)
    }

    pub fn new() -> (r: SymbolTable)
        ensures
            r@ == Seq::<Seq<char>>::empty(),
            r.wf(),
    {
        SymbolTable { names: Vec::new() }
    }

    /// The number of names resolved so far, which is also the next id.
    pub fn len(&self) -> (r: usize)
        ensures
            r == self@.len(),
    {
        self.names.len()
    }

    /// The id of `name`, if it has one.
    pub fn lookup(&self, name: &String) -> (r: Option<usize>)
        requires
            self.wf(),
        ensures
            r is Some <==> self@.contains(name@),
            r is Some ==> r->0 == self@.index_of(name@),
    {
        let mut i: usize = 0;
        while i < self.names.len()
            invariant
                self.wf(),
                0 <= i <= self.names.len(),
                forall|k: int| 0 <= k < i ==> self@[k] != name@,
            decreases self.names.len() - i,
        {
            if self.names[i] == *name {
                proof {
                    assert(self@[i as int] == name@);
                    lemma_index_of_distinct(self@, i as int);
                }
                return Some(i);
            }
            i = i + 1;
        }
        proof {
            if self@.contains(name@) {
                let k = choose|k: int| 0 <= k < self@.len() && self@[k] == name@;
                assert(self@[k] == name@);
            }
        }
        None
    }
}

/// In a sequence without repeats, the first index of `s[i]` is `i`.
pub proof fn lemma_index_of_distinct(s: Seq<Seq<char>>, i: int)
    requires
        distinct_names(s),
        0 <= i < s.len(),
    ensures
        s.index_of(s[i]) == i,
{
    assert(s.contains(s[i]));
    let j = s.index_of(s[i]);
    assert(s[j] == s[i]);
}

/// Returns the id of `string`, allocating the next dense id when it is new.
pub fn get_or_set_id(string: String, variables: &mut SymbolTable) -> (r: usize)
    requires
        old(variables).wf(),
        old(variables)@.len() < usize::MAX,
    ensures
        final(variables).wf(),
        (final(variables)@, r as nat) == resolve_spec(old(variables)@, string@),
        r < final(variables)@.len(),
        old(variables)@.len() <= final(variables)@.len() <= old(variables)@.len() + 1,
{
    match variables.lookup(&string) {
        Some(id) => id,
        None => {
            let id = variables.names.len();
            let ghost before = variables@;
            variables.names.push(string);
            proof {
                assert(variables@ =~= before.push(string@));
            }
            id
        },
    }
}

/// The table left by resolving `names` in order, starting from `tab`.
pub open spec fn resolve_all(tab: Seq<Seq<char>>, names: Seq<Seq<char>>) -> Seq<Seq<char>>
    decreases names.len(),
{
    if names.len() == 0 {
        tab
    } else {
        resolve_spec(resolve_all(tab, names.drop_last()), names.last()).0
    }
}

/// The distinct names of `names`, in order of first occurrence.
pub open spec fn first_seen(names: Seq<Seq<char>>) -> Seq<Seq<char>>
    decreases names.len(),
{
    if names.len() == 0 {
        Seq::<Seq<char>>::empty()
    } else {
        let f = first_seen(names.drop_last());
        if f.contains(names.last()) {
            f
        } else {
            f.push(names.last())
        }
    }
}

proof fn lemma_first_seen_facts(names: Seq<Seq<char>>)
    ensures
        distinct_names(first_seen(names)),
        resolve_all(Seq::<Seq<char>>::empty(), names) == first_seen(names),
    decreases names.len(),
{
    if names.len() > 0 {
        lemma_first_seen_facts(names.drop_last());
    }
}

proof fn lemma_first_seen_prefix(names: Seq<Seq<char>>, k: int)
    requires
        0 <= k <= names.len(),
    ensures
        first_seen(names.subrange(0, k)).len() <= first_seen(names).len(),
        first_seen(names.subrange(0, k)) =~= first_seen(names).subrange(
            0,
            first_seen(names.subrange(0, k)).len() as int,
        ),
    decreases names.len(),
{
    if k == names.len() {
        assert(names.subrange(0, k) =~= names);
    } else {
        assert(names.drop_last().subrange(0, k) =~= names.subrange(0, k));
        lemma_first_seen_prefix(names.drop_last(), k);
    }
}

/// Ids are dense and follow first occurrence: resolving `names` in order from an
/// empty table leaves their distinct names in order of first occurrence, and the
/// id given to `names[i]` is the position of that name there. So the n-th
/// distinct name gets id n - 1, and every repeat of a name gets its first id.
pub proof fn lemma_ids_follow_first_occurrence(names: Seq<Seq<char>>, i: int)
    requires
        0 <= i < names.len(),
    ensures
        resolve_all(Seq::<Seq<char>>::empty(), names) == first_seen(names),
        distinct_names(first_seen(names)),
        resolve_spec(resolve_all(Seq::<Seq<char>>::empty(), names.subrange(0, i)), names[i]).1
            == first_seen(names).index_of(names[i]),
{
    lemma_first_seen_facts(names);
    let pre = names.subrange(0, i);
    let upto = names.subrange(0, i + 1);
    lemma_first_seen_facts(pre);
    lemma_first_seen_facts(upto);
    assert(upto.drop_last() =~= pre);
    let f = first_seen(pre);
    let g = first_seen(upto);
    let x = names[i];
    let id = resolve_spec(f, x).1;
    assert(upto.last() == x);
    if f.contains(x) {
        lemma_index_of_distinct(f, f.index_of(x));
    } else {
        assert(g[f.len() as int] == x);
        lemma_index_of_distinct(g, f.len() as int);
    }
    assert(g[id as int] == x);
    lemma_first_seen_prefix(names, i + 1);
    let all = first_seen(names);
    assert(all[id as int] == x);
    lemma_index_of_distinct(all, id as int);
}

/// Resolving a name a second time changes nothing and gives the same id.
pub proof fn lemma_resolve_idempotent(tab: Seq<Seq<char>>, name: Seq<char>)
    requires
        distinct_names(tab),
    ensures
        resolve_spec(resolve_spec(tab, name).0, name) == resolve_spec(tab, name),
{
    let (t, id) = resolve_spec(tab, name);
    if !tab.contains(name) {
        assert(t[tab.len() as int] == name);
        assert(distinct_names(t)) by {
            assert forall|i: int, j: int| 0 <= i < j < t.len() implies t[i] != t[j] by {
                if j == tab.len() {
                    assert(t[i] == tab[i]);
                    if tab[i] == name {
                        assert(tab.contains(name));
                    }
                }
            }
        }
        lemma_index_of_distinct(t, tab.len() as int);
    }
}

} // verus!
