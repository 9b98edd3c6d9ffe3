//! Directory-scan results and the candidate lists built from them:
//! directory names filtered, sorted, de-duplicated, and ordered with
//! the previously selected value first.

use vstd::prelude::*;
use crate::bytestr::bytes_eq;
use crate::bytestr::bytes_le;
use crate::bytestr::copy_bytes;
use crate::bytestr::lex_le;
use crate::bytestr::lex_lt;
use crate::bytestr::lemma_lex_le_total;
use crate::bytestr::lemma_lex_le_trans;
use crate::bytestr::lemma_lex_le_antisym;
use crate::error::ModuleError;
use crate::paths::environment_field_bytes;
use crate::paths::environment_field;

verus! {

/// One entry of a directory listing, as the scan hands it over: the
/// entry's base name and whether the entry is itself a directory.
pub struct DirEntry {
    /// The entry's base name.
    pub name: Vec<u8>,
    /// True when the entry is a directory.
    pub is_dir: bool,
}

/// The views of a sequence of byte strings.
pub open spec fn views(s: Seq<Vec<u8>>) -> Seq<Seq<u8>> {
    s.map_values(|v: Vec<u8>| v@)
}

/// The names of the directory entries, kept in listing order.
pub open spec fn spec_dirnames(entries: Seq<DirEntry>) -> Seq<Seq<u8>>
    decreases entries.len(),
{
    if entries.len() == 0 {
        Seq::empty()
    } else {
        let rest = spec_dirnames(entries.drop_last());
        if entries.last().is_dir {
            rest.push(entries.last().name@)
        } else {
            rest
        }
    }
}

/// Strict lexicographic sortedness: later entries are strictly
/// greater, so the sequence also holds no duplicates.
pub open spec fn strictly_sorted(s: Seq<Seq<u8>>) -> bool {
    forall|i: int, j: int| 0 <= i < j < s.len() ==> lex_lt(s[i], s[j])
}

/// The base names of the entries that are directories, in listing
/// order.  Entries that are not directories are left out.
pub fn get_dirnames_from_path(entries: &Vec<DirEntry>) -> (r: Vec<Vec<u8>>)
    ensures
        views(r@) == spec_dirnames(entries@),
{
    let n = entries.len();
    let mut r: Vec<Vec<u8>> = Vec::new();
    let mut i: usize = 0;
    while i < n
        invariant
            n == entries.len(),
            0 <= i <= n,
            views(r@) == spec_dirnames(entries@.take(i as int)),
        decreases n - i,
    {
        let ghost prev = r@;
        if entries[i].is_dir {
            let name = copy_bytes(&entries[i].name);
            r.push(name);
            assert(views(r@) =~= views(prev).push(entries@[i as int].name@));
        }
        proof {
            let t = entries@.take(i as int + 1);
            assert(t.drop_last() =~= entries@.take(i as int));
            assert(t.last() == entries@[i as int]);
        }
        i = i + 1;
    }
    assert(entries@.take(n as int) =~= entries@);
    r
}

/// Inserting an element that lies strictly between its neighbours
/// keeps a sequence strictly sorted.
proof fn lemma_sorted_insert(s: Seq<Seq<u8>>, j: int, x: Seq<u8>)
    requires
        strictly_sorted(s),
        0 <= j <= s.len(),
        forall|k: int| 0 <= k < j ==> lex_lt(s[k], x),
        j < s.len() ==> lex_lt(x, s[j]),
    ensures
        strictly_sorted(s.insert(j, x)),
{
    assert forall|k: int| j <= k < s.len() implies lex_lt(x, s[k]) by {
        if k > j {
            assert(lex_lt(s[j], s[k]));
            lemma_lex_le_trans(x, s[j], s[k]);
            if x == s[k] {
                assert(lex_le(s[j], x));
                lemma_lex_le_antisym(x, s[j]);
            }
        }
    }
    s.insert_ensures(j, x);
    let t = s.insert(j, x);
    assert forall|i1: int, i2: int| 0 <= i1 < i2 < t.len() implies lex_lt(t[i1], t[i2]) by {
        if i1 < j {
            assert(t[i1] == s[i1]);
        }
        if i1 > j {
            assert(t[i1] == s[i1 - 1]);
        }
        if i2 < j {
            assert(t[i2] == s[i2]);
        }
        if i2 > j {
            assert(t[i2] == s[i2 - 1]);
        }
    }
}

/// Inserting an element adds exactly it to the set of elements.
proof fn lemma_insert_to_set(s: Seq<Seq<u8>>, j: int, x: Seq<u8>)
    requires
        0 <= j <= s.len(),
    ensures
        s.insert(j, x).to_set() == s.to_set().insert(x),
{
    s.insert_ensures(j, x);
    let t = s.insert(j, x);
    assert forall|e: Seq<u8>| t.to_set().contains(e) implies s.to_set().insert(x).contains(e) by {
        let i = choose|i: int| 0 <= i < t.len() && t[i] == e;
        if i < j {
            assert(s[i] == e);
        } else if i > j {
            assert(s[i - 1] == e);
        }
    }
    assert forall|e: Seq<u8>| s.to_set().insert(x).contains(e) implies t.to_set().contains(e) by {
        if e == x {
            assert(t[j] == e);
        } else {
            let i = choose|i: int| 0 <= i < s.len() && s[i] == e;
            if i < j {
                assert(t[i] == e);
            } else {
                assert(t[i + 1] == e);
            }
        }
    }
    assert(t.to_set() =~= s.to_set().insert(x));
}

/// Inserts `x` into a strictly sorted list of byte strings, keeping it
/// sorted; when the value is already present nothing changes.
fn insert_sorted_unique(list: &mut Vec<Vec<u8>>, x: Vec<u8>)
    requires
        strictly_sorted(views(old(list)@)),
    ensures
        strictly_sorted(views(final(list)@)),
        views(final(list)@).to_set() == views(old(list)@).to_set().insert(x@),
{
    let n = list.len();
    let mut j: usize = 0;
    while j < n
        invariant
            n == list.len(),
            0 <= j <= n,
            list@ == old(list)@,
            strictly_sorted(views(list@)),
            forall|k: int| 0 <= k < j ==> lex_lt(views(list@)[k], x@),
        decreases n - j,
    {
        if bytes_le(&x, &list[j]) {
            if bytes_eq(&x, &list[j]) {
                proof {
                    assert(views(list@)[j as int] == x@);
                    assert(views(list@).to_set().contains(x@));
                    assert(views(list@).to_set() =~= views(list@).to_set().insert(x@));
                }
                return;
            }
            proof {
                lemma_sorted_insert(views(list@), j as int, x@);
                lemma_insert_to_set(views(list@), j as int, x@);
                assert(views(list@.insert(j as int, x)) =~= views(list@).insert(j as int, x@));
            }
            list.insert(j, x);
            return;
        }
        proof {
            lemma_lex_le_total(x@, views(list@)[j as int]);
            assert(lex_lt(views(list@)[j as int], x@));
        }
        j = j + 1;
    }
    proof {
        lemma_sorted_insert(views(list@), n as int, x@);
        lemma_insert_to_set(views(list@), n as int, x@);
        assert(views(list@).insert(n as int, x@) =~= views(list@).push(x@));
        assert(views(list@.push(x)) =~= views(list@).push(x@));
    }
    list.push(x);
}

/// Prepending one element adds exactly it to the set of elements.
proof fn lemma_cons_to_set(y: Seq<u8>, s: Seq<Seq<u8>>)
    ensures
        (seq![y] + s).to_set() == s.to_set().insert(y),
{
    let t = seq![y] + s;
    assert forall|e: Seq<u8>| t.to_set().contains(e) implies s.to_set().insert(y).contains(e) by {
        let i = choose|i: int| 0 <= i < t.len() && t[i] == e;
        if i > 0 {
            assert(s[i - 1] == e);
        }
    }
    assert forall|e: Seq<u8>| s.to_set().insert(y).contains(e) implies t.to_set().contains(e) by {
        if e == y {
            assert(t[0] == e);
        } else {
            let i = choose|i: int| 0 <= i < s.len() && s[i] == e;
            assert(t[i + 1] == e);
        }
    }
    assert(t.to_set() =~= s.to_set().insert(y));
}

/// Everything in a strictly sorted sequence lies below whatever its
/// last element lies below.
proof fn lemma_all_below(s: Seq<Seq<u8>>, x: Seq<u8>)
    requires
        strictly_sorted(s),
        s.len() > 0,
        lex_lt(s[s.len() - 1], x),
    ensures
        forall|k: int| 0 <= k < s.len() ==> lex_lt(s[k], x),
{
    let last = s[s.len() - 1];
    assert forall|k: int| 0 <= k < s.len() implies lex_lt(s[k], x) by {
        if k < s.len() - 1 {
            assert(lex_lt(s[k], last));
            lemma_lex_le_trans(s[k], last, x);
            if s[k] == x {
                lemma_lex_le_antisym(last, x);
            }
        }
    }
}

/// Sorts the given names lexicographically, dropping duplicates and,
/// when `excluded` is given, every name equal to it.
fn sorted_unique_names(names: Vec<Vec<u8>>, excluded: Option<&Vec<u8>>) -> (r: Vec<Vec<u8>>)
    ensures
        strictly_sorted(views(r@)),
        views(r@).to_set() == match excluded {
            None => views(names@).to_set(),
            Some(x) => views(names@).to_set().remove(x@),
        },
{
    let mut rest = names;
    let mut r: Vec<Vec<u8>> = Vec::new();
    proof {
        assert(rest@ =~= names@.take(rest@.len() as int));
        assert(names@.skip(rest@.len() as int) =~= Seq::<Vec<u8>>::empty());
        assert(views(r@).to_set() =~= Set::<Seq<u8>>::empty());
        assert(views(names@.skip(rest@.len() as int)).to_set() =~= Set::<Seq<u8>>::empty());
        if let Some(x) = excluded {
            assert(views(names@.skip(rest@.len() as int)).to_set().remove(x@) =~= Set::<
                Seq<u8>,
            >::empty());
        }
    }
    while rest.len() > 0
        invariant
            rest@.len() <= names@.len(),
            rest@ == names@.take(rest@.len() as int),
            strictly_sorted(views(r@)),
            views(r@).to_set() == match excluded {
                None => views(names@.skip(rest@.len() as int)).to_set(),
                Some(x) => views(names@.skip(rest@.len() as int)).to_set().remove(x@),
            },
        decreases rest@.len(),
    {
        let ghost m = rest@.len() as int;
        let ghost old_rest = rest@;
        let ghost prev_set = views(r@).to_set();
        let x = match rest.pop() {
            Some(x) => x,
            None => {
                // unreachable: the loop condition guarantees an element
                return r;
            },
        };
        proof {
            assert(x == old_rest[m - 1]);
            assert(old_rest[m - 1] == names@.take(m)[m - 1]);
            assert(x == names@[m - 1]);
            assert(rest@ =~= names@.take(m - 1));
            assert(names@.skip(m - 1) =~= seq![names@[m - 1]] + names@.skip(m));
            assert(views(seq![names@[m - 1]] + names@.skip(m)) =~= seq![x@] + views(
                names@.skip(m),
            ));
            lemma_cons_to_set(x@, views(names@.skip(m)));
        }
        let skip_this = match excluded {
            Some(e) => bytes_eq(&x, e),
            None => false,
        };
        if skip_this {
            proof {
                let e = excluded.unwrap();
                assert(views(names@.skip(m - 1)).to_set().remove(e@) =~= views(
                    names@.skip(m),
                ).to_set().remove(e@));
            }
        } else {
            insert_sorted_unique(&mut r, x);
            proof {
                match excluded {
                    None => {
                        assert(views(names@.skip(m - 1)).to_set() =~= prev_set.insert(x@));
                    },
                    Some(e) => {
                        assert(views(names@.skip(m - 1)).to_set().remove(e@) =~= prev_set.insert(
                            x@,
                        ));
                    },
                }
            }
        }
    }
    proof {
        assert(names@.skip(0) =~= names@);
    }
    r
}

/// Puts `first` at the head of a sorted candidate list, dropping any
/// copy of it further down, as the prompt shows the previous selection
/// first and never twice.
fn with_first(first: &Vec<u8>, sorted: Vec<Vec<u8>>) -> (r: Vec<Vec<u8>>)
    requires
        strictly_sorted(views(sorted@)),
    ensures
        r@.len() >= 1,
        views(r@)[0] == first@,
        strictly_sorted(views(r@).skip(1)),
        forall|i: int| 1 <= i < r@.len() ==> views(r@)[i] != first@,
        views(r@).skip(1).to_set() == views(sorted@).to_set().remove(first@),
{
    let mut r: Vec<Vec<u8>> = Vec::new();
    r.push(copy_bytes(first));
    let ghost mut last_j: int = 0;
    let n = sorted.len();
    let mut i: usize = 0;
    proof {
        assert(views(r@).skip(1) =~= Seq::<Seq<u8>>::empty());
        assert(views(r@).skip(1).to_set() =~= Set::<Seq<u8>>::empty());
        assert(views(sorted@).take(0).to_set() =~= Set::<Seq<u8>>::empty());
        assert(views(sorted@).take(0).to_set().remove(first@) =~= Set::<Seq<u8>>::empty());
    }
    while i < n
        invariant
            n == sorted.len(),
            0 <= i <= n,
            strictly_sorted(views(sorted@)),
            r@.len() >= 1,
            views(r@)[0] == first@,
            strictly_sorted(views(r@).skip(1)),
            forall|t: int| 1 <= t < r@.len() ==> views(r@)[t] != first@,
            views(r@).skip(1).to_set() == views(sorted@).take(i as int).to_set().remove(first@),
            r@.len() > 1 ==> 0 <= last_j < i && views(r@)[r@.len() - 1] == views(sorted@)[last_j],
        decreases n - i,
    {
        let ghost prev = views(r@);
        let ghost taken = views(sorted@).take(i as int);
        proof {
            assert(views(sorted@).take(i as int + 1) =~= taken.push(views(sorted@)[i as int]));
            lemma_insert_to_set(taken, taken.len() as int, views(sorted@)[i as int]);
            assert(taken.insert(taken.len() as int, views(sorted@)[i as int]) =~= taken.push(
                views(sorted@)[i as int],
            ));
        }
        if !bytes_eq(&sorted[i], first) {
            let x = copy_bytes(&sorted[i]);
            proof {
                if prev.len() > 1 {
                    assert(lex_lt(views(sorted@)[last_j], views(sorted@)[i as int]));
                    lemma_all_below(prev.skip(1), x@);
                }
                lemma_sorted_insert(prev.skip(1), prev.len() - 1, x@);
                assert(prev.skip(1).insert(prev.len() - 1, x@) =~= prev.skip(1).push(x@));
                lemma_insert_to_set(prev.skip(1), prev.len() - 1, x@);
            }
            r.push(x);
            proof {
                assert(views(r@) =~= prev.push(views(sorted@)[i as int]));
                assert(views(r@).skip(1) =~= prev.skip(1).push(views(sorted@)[i as int]));
                assert(views(r@).skip(1).to_set() =~= views(sorted@).take(
                    i as int + 1,
                ).to_set().remove(first@));
                last_j = i as int;
            }
        } else {
            proof {
                assert(views(sorted@)[i as int] == first@);
                assert(views(r@).skip(1).to_set() =~= views(sorted@).take(
                    i as int + 1,
                ).to_set().remove(first@));
            }
        }
        i = i + 1;
    }
    proof {
        assert(views(sorted@).take(n as int) =~= views(sorted@));
    }
    r
}

/// The reserved directory name "terraform": it holds the module source
/// itself and is never offered as an environment.
pub open spec fn reserved_name() -> Seq<u8> {
    seq![116u8, 101u8, 114u8, 114u8, 97u8, 102u8, 111u8, 114u8, 109u8]
}

/// The byte string "terraform".
pub fn reserved_name_bytes() -> (r: Vec<u8>)
    ensures
        r@ == reserved_name(),
{
    let r: Vec<u8> = vec![116, 101, 114, 114, 97, 102, 111, 114, 109];
    assert(r@ =~= reserved_name());
    r
}

/// The environment choices offered: the scanned directory names with
/// the reserved name excluded, sorted and de-duplicated; when an
/// environment was selected before, it stands first and nowhere else.
pub fn environment_candidates(dirnames: Vec<Vec<u8>>, previous: &Option<Vec<u8>>) -> (r: Vec<
    Vec<u8>,
>)
    ensures
        match previous {
            None => {
                &&& strictly_sorted(views(r@))
                &&& views(r@).to_set() == views(dirnames@).to_set().remove(reserved_name())
            },
            Some(p) => {
                &&& r@.len() >= 1
                &&& views(r@)[0] == p@
                &&& strictly_sorted(views(r@).skip(1))
                &&& forall|i: int| 1 <= i < r@.len() ==> views(r@)[i] != p@
                &&& views(r@).skip(1).to_set() == views(dirnames@).to_set().remove(
                    reserved_name(),
                ).remove(p@)
            },
        },
{
    let reserved = reserved_name_bytes();
    let sorted = sorted_unique_names(dirnames, Some(&reserved));
    match previous {
        None => sorted,
        Some(p) => with_first(p, sorted),
    }
}

/// The region choices offered: the scanned directory names, sorted and
/// de-duplicated, with the previously selected region first and
/// nowhere else.
pub fn region_candidates(dirnames: Vec<Vec<u8>>, previous: &Vec<u8>) -> (r: Vec<Vec<u8>>)
    ensures
        r@.len() >= 1,
        views(r@)[0] == previous@,
        strictly_sorted(views(r@).skip(1)),
        forall|i: int| 1 <= i < r@.len() ==> views(r@)[i] != previous@,
        views(r@).skip(1).to_set() == views(dirnames@).to_set().remove(previous@),
{
    let sorted = sorted_unique_names(dirnames, None);
    with_first(previous, sorted)
}

/// The outcome of the environment selection: the candidate at the
/// chosen index, or, when the prompt was cancelled, the error that
/// aborts the whole flow.
pub fn pick_environment(items: &Vec<Vec<u8>>, choice: Option<usize>) -> (r: Result<
    Vec<u8>,
    ModuleError,
>)
    requires
        choice matches Some(i) ==> i < items@.len(),
    ensures
        match r {
            Ok(v) => choice matches Some(i) && v@ == views(items@)[i as int],
            Err(e) => {
                &&& choice is None
                &&& e matches ModuleError::IncompleteConfig(f) && f@ == environment_field()
            },
        },
{
    match choice {
        Some(i) => Ok(copy_bytes(&items[i])),
        None => Err(ModuleError::IncompleteConfig(environment_field_bytes())),
    }
}

/// What the region step does next, given the select outcome.
pub enum RegionOutcome {
    /// The candidate at the chosen index.
    Selected(Vec<u8>),
    /// The select was cancelled: free-text entry follows, pre-filled
    /// with the payload.
    EnterText(Vec<u8>),
}

/// The outcome of the region selection: the candidate at the chosen
/// index, or, when the prompt was cancelled, a fall-back to free-text
/// entry pre-filled with the first candidate — never a failure.
pub fn pick_region(items: &Vec<Vec<u8>>, choice: Option<usize>) -> (r: RegionOutcome)
    requires
        items@.len() > 0,
        choice matches Some(i) ==> i < items@.len(),
    ensures
        match r {
            RegionOutcome::Selected(v) => choice matches Some(i) && v@ == views(items@)[i as int],
            RegionOutcome::EnterText(d) => choice is None && d@ == views(items@)[0],
        },
{
    match choice {
        Some(i) => RegionOutcome::Selected(copy_bytes(&items[i])),
        None => RegionOutcome::EnterText(copy_bytes(&items[0])),
    }
}

} // verus!
