//! Names of databases and documents: UTF-8 strings that stand as one
//! component of a path each.

use crate::keys::{
    key_order, lemma_precedes_asymmetric, lemma_precedes_total, lemma_precedes_transitive,
    precedes, KeyOrder,
};
use crate::outcome::name_views;
use vstd::prelude::*;
use vstd::utf8::{encode_utf8, encode_utf8_decode_utf8};

verus! {

/// The UTF-8 form of a name.
pub open spec fn text_bytes(name: Seq<char>) -> Seq<u8> {
    encode_utf8(name)
}

/// Names are told apart by their UTF-8 form.
pub proof fn lemma_text_bytes_injective(a: Seq<char>, b: Seq<char>)
    requires
        text_bytes(a) == text_bytes(b),
    ensures
        a == b,
{
    encode_utf8_decode_utf8(a);
    encode_utf8_decode_utf8(b);
}

/// Whether two strings are the same text.
pub fn same_text(a: &str, b: &str) -> (r: bool)
    ensures
        r == (a@ == b@),
{
    proof {
        if text_bytes(a@) == text_bytes(b@) {
            lemma_text_bytes_injective(a@, b@);
        }
    }
    key_order(a.as_bytes(), b.as_bytes()) == KeyOrder::Same
}

/// The bytes can stand as the name of a database or of a document, that is
/// as one component of a path that is not hidden, where paths are written
/// with `/`: they are not empty, do not begin with a dot, and hold no `/`
/// and no NUL.
pub open spec fn plain_component(b: Seq<u8>) -> bool {
    &&& b.len() > 0
    &&& b[0] != 0x2e
    &&& forall|i: int| 0 <= i < b.len() ==> b[i] != 0x2f && b[i] != 0
}

/// Whether `name` can stand as the name of a database or of a document.
pub fn is_component(name: &str) -> (r: bool)
    ensures
        r == plain_component(text_bytes(name@)),
{
    let b = name.as_bytes();
    if b.len() == 0 || b[0] == 0x2e {
        return false;
    }
    let mut i: usize = 0;
    while i < b.len()
        invariant
            i <= b.len(),
            b@ == text_bytes(name@),
            forall|k: int| 0 <= k < i ==> b@[k] != 0x2f && b@[k] != 0,
        decreases b.len() - i,
    {
        if b[i] == 0x2f || b[i] == 0 {
            assert(!plain_component(b@)) by {
                let bad = b@[i as int];
                assert(bad == 0x2f || bad == 0);
            }
            return false;
        }
        i = i + 1;
    }
    true
}

/// The place of a document on disk: the directory named after it, in the
/// directory named after its database, in the root directory. Paths are
/// written with `/`.
pub open spec fn place_of(root: Seq<char>, db: Seq<char>, doc: Seq<char>) -> Seq<char> {
    root + "/"@ + db + "/"@ + doc
}

/// The path of the place of document `doc` of database `db` under `root`.
pub fn store_path(root: &str, db: &str, doc: &str) -> (path: String)
    ensures
        path@ == place_of(root@, db@, doc@),
{
    let mut path = String::from_str(root);
    path.append("/");
    path.append(db);
    path.append("/");
    path.append(doc);
    path
}

/// `a` comes before `b` in the order of their UTF-8 forms.
pub open spec fn comes_first(a: Seq<char>, b: Seq<char>) -> bool {
    precedes(text_bytes(a), text_bytes(b))
}

/// Strictly ascending in the order of the UTF-8 forms.
pub open spec fn names_ascending(s: Seq<Seq<char>>) -> bool {
    forall|i: int, j: int| 0 <= i < j < s.len() ==> comes_first(#[trigger] s[i], #[trigger] s[j])
}

/// The names in ascending order, each once.
pub fn sort_names(names: &Vec<String>) -> (out: Vec<String>)
    ensures
        names_ascending(name_views(out@)),
        name_views(out@).to_set() == name_views(names@).to_set(),
        name_views(names@).no_duplicates() ==> out@.len() == names@.len(),
{
    let mut out: Vec<String> = Vec::new();
    let mut i: usize = 0;
    assert(name_views(out@).to_set() =~= name_views(names@).subrange(0, 0).to_set());
    while i < names.len()
        invariant
            i <= names.len(),
            names_ascending(name_views(out@)),
            name_views(out@).to_set() == name_views(names@).subrange(0, i as int).to_set(),
        decreases names.len() - i,
    {
        let name = &names[i];
        let ghost text = name@;
        let ghost before = name_views(out@);
        let ghost seen = name_views(names@).subrange(0, i as int);
        let ghost next = name_views(names@).subrange(0, i + 1);
        proof {
            assert(next =~= seen.push(text));
            assert forall|k: Seq<char>| next.to_set().contains(k) <==> seen.to_set().insert(
                text,
            ).contains(k) by {
                if next.contains(k) {
                    let j = choose|j: int| 0 <= j < next.len() && next[j] == k;
                    if j < i {
                        assert(seen[j] == k);
                    }
                }
                if seen.contains(k) {
                    let j = choose|j: int| 0 <= j < seen.len() && seen[j] == k;
                    assert(next[j] == k);
                }
                assert(next[i as int] == text);
            }
            assert(next.to_set() =~= seen.to_set().insert(text));
        }
        let mut p: usize = 0;
        while p < out.len() && key_order(out[p].as_str().as_bytes(), name.as_str().as_bytes())
            == KeyOrder::Before
            invariant
                p <= out.len(),
                before == name_views(out@),
                text == name@,
                forall|k: int| 0 <= k < p ==> comes_first(#[trigger] before[k], text),
            decreases out.len() - p,
        {
            assert(before[p as int] == out@[p as int]@);
            p = p + 1;
        }
        if p < out.len() && same_text(out[p].as_str(), name.as_str()) {
            proof {
                assert(before[p as int] == text);
                assert(before.contains(text));
                assert(before.to_set().insert(text) =~= before.to_set());
            }
        } else {
            proof {
                if p < out.len() {
                    assert(before[p as int] == out@[p as int]@);
                    lemma_precedes_total(text_bytes(before[p as int]), text_bytes(text));
                    if text_bytes(before[p as int]) == text_bytes(text) {
                        lemma_text_bytes_injective(before[p as int], text);
                    }
                    assert(comes_first(text, before[p as int]));
                }
            }
            out.insert(p, name.clone());
            proof {
                let after = name_views(out@);
                assert(after =~= before.insert(p as int, text));
                assert forall|a: int, b: int| 0 <= a < b < after.len() implies comes_first(
                    #[trigger] after[a],
                    #[trigger] after[b],
                ) by {
                    if b < p {
                        assert(comes_first(before[a], before[b]));
                    } else if b == p {
                        assert(comes_first(before[a], text));
                    } else if a < p {
                        assert(comes_first(before[a], before[b - 1]));
                    } else if a == p {
                        if b - 1 > p {
                            assert(comes_first(before[p as int], before[b - 1]));
                            lemma_precedes_transitive(
                                text_bytes(text),
                                text_bytes(before[p as int]),
                                text_bytes(before[b - 1]),
                            );
                        }
                    } else {
                        assert(comes_first(before[a - 1], before[b - 1]));
                    }
                }
                assert forall|k: Seq<char>| after.to_set().contains(k) <==> before.to_set().insert(
                    text,
                ).contains(k) by {
                    if after.contains(k) {
                        let j = choose|j: int| 0 <= j < after.len() && after[j] == k;
                        if j < p {
                            assert(before[j] == k);
                            assert(before.contains(k));
                        } else if j > p {
                            assert(before[j - 1] == k);
                            assert(before.contains(k));
                        }
                    }
                    if before.contains(k) {
                        let m = choose|m: int| 0 <= m < before.len() && before[m] == k;
                        if m < p {
                            assert(after[m] == k);
                        } else {
                            assert(after[m + 1] == k);
                        }
                    }
                    assert(after[p as int] == text);
                }
                assert(after.to_set() =~= before.to_set().insert(text));
            }
        }
        i = i + 1;
    }
    assert(name_views(names@).subrange(0, i as int) =~= name_views(names@));
    proof {
        lemma_names_ascending_distinct(name_views(out@));
        if name_views(names@).no_duplicates() {
            name_views(out@).unique_seq_to_set();
            name_views(names@).unique_seq_to_set();
        }
    }
    out
}

/// In an ascending list no name occurs twice.
pub proof fn lemma_names_ascending_distinct(s: Seq<Seq<char>>)
    requires
        names_ascending(s),
    ensures
        s.no_duplicates(),
{
    assert forall|i: int, j: int| 0 <= i < s.len() && 0 <= j < s.len() && i != j implies s[i]
        != s[j] by {
        if i < j {
            lemma_precedes_asymmetric(text_bytes(s[i]), text_bytes(s[j]));
        } else {
            lemma_precedes_asymmetric(text_bytes(s[j]), text_bytes(s[i]));
        }
    }
}

} // verus!
