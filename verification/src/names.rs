//! Names in lists: their views, and the last entry of a name.

use vstd::prelude::*;

verus! {

/// The character sequences of a list of texts.
pub open spec fn name_views(v: Seq<String>) -> Seq<Seq<char>> {
    v.map_values(|s: String| s@)
}

/// The index of the last name equal to `n`, or -1 where there is none.
pub open spec fn last_index(names: Seq<Seq<char>>, n: Seq<char>) -> int
    decreases names.len(),
{
    if names.len() == 0 {
        -1
    } else if names.last() == n {
        names.len() - 1
    } else {
        last_index(names.drop_last(), n)
    }
}

/// Index `i` holds the last occurrence of its name.
pub open spec fn is_kept(names: Seq<Seq<char>>, i: int) -> bool {
    &&& 0 <= i < names.len()
    &&& forall|j: int| i < j < names.len() ==> names[j] != names[i]
}

pub(crate) proof fn lemma_last_index_take(names: Seq<Seq<char>>, n: Seq<char>, j: int)
    requires
        0 <= j < names.len(),
    ensures
        last_index(names.take(j + 1), n) == if names[j] == n { j } else { last_index(names.take(j), n) },
{
    assert(names.take(j + 1).drop_last() =~= names.take(j));
}

/// The index of the last text of `v` equal to `n`.
pub(crate) fn last_index_of(v: &Vec<String>, n: &String) -> (found: Option<usize>)
    ensures
        match found {
            Some(i) => last_index(name_views(v@), n@) == i,
            None => last_index(name_views(v@), n@) == -1,
        },
{
    let ghost views = name_views(v@);
    let mut found: Option<usize> = None;
    let mut i: usize = 0;
    while i < v.len()
        invariant
            i <= v@.len(),
            views == name_views(v@),
            match found {
                Some(k) => last_index(views.take(i as int), n@) == k,
                None => last_index(views.take(i as int), n@) == -1,
            },
        decreases v@.len() - i,
    {
        proof {
            lemma_last_index_take(views, n@, i as int);
        }
        if v[i] == *n {
            found = Some(i);
        }
        i = i + 1;
    }
    assert(views.take(v@.len() as int) =~= views);
    found
}

pub(crate) proof fn lemma_last_index_absent(names: Seq<Seq<char>>, n: Seq<char>)
    ensures
        names.contains(n) <==> last_index(names, n) != -1,
        last_index(names, n) != -1 ==> {
            &&& 0 <= last_index(names, n) < names.len()
            &&& names[last_index(names, n)] == n
            &&& is_kept(names, last_index(names, n))
        },
    decreases names.len(),
{
    if names.len() > 0 {
        let rest = names.drop_last();
        lemma_last_index_absent(rest, n);
        if names.last() == n {
            assert(names[names.len() - 1] == n);
        } else {
            if names.contains(n) {
                let k = choose|k: int| 0 <= k < names.len() && names[k] == n;
                assert(rest[k] == n);
            }
            if rest.contains(n) {
                let k = choose|k: int| 0 <= k < rest.len() && rest[k] == n;
                assert(names[k] == n);
                let li = last_index(rest, n);
                assert forall|j: int| li < j < names.len() implies names[j] != names[li] by {
                    if j < names.len() - 1 {
                        assert(rest[j] != rest[li]);
                    }
                }
            }
        }
    }
}

} // verus!
