//! The data-access contract and an in-memory backend that meets it.
//!
//! [`DataAccess`] is the layer's public interface: create, get, list and
//! delete over records keyed by ISBN, each stated against the map model in
//! [`crate::model`]. Any operation may fail with the opaque
//! [`DataError`]; the contracts say exactly what a success means and that a
//! failure leaves the records as they were.
//!
//! [`MemoryDataAccess`] implements the contract over a vector of entries. It
//! doubles as the test backend: each operation can be made to fail on demand,
//! and each keeps a call count, so that tests can observe that a failing
//! operation was attempted exactly once and that a rejected request reached
//! no operation at all.

use crate::json::opt_views;
use crate::json::render_model;
use crate::json::render_payloads;
use crate::model::create_model;
use crate::model::delete_model;
use crate::model::get_model;
use crate::model::listed_payloads;
use crate::model::records_listing;
use crate::outcome::DataError;
use vstd::prelude::*;

verus! {

/// The data-access contract: CRUD over records keyed by ISBN, polymorphic
/// over the backend. Success is stated through the model functions of
/// [`crate::model`]; failure is the opaque [`DataError`] and leaves the
/// records unchanged. A backend may also fail for reasons of its own (an
/// unreachable store), so no method promises success here; a concrete
/// backend says when it succeeds.
pub trait DataAccess: Sized {
    /// The backend's internal consistency.
    spec fn wf(&self) -> bool;

    /// The records the backend currently holds, keyed by ISBN.
    spec fn records(&self) -> Map<Seq<char>, Seq<char>>;

    /// Writes or overwrites the record under `isbn`: an upsert with
    /// last-write-wins semantics and no validation of the payload.
    fn create(&mut self, isbn: String, payload: String) -> (r: Result<(), DataError>)
        requires
            old(self).wf(),
        ensures
            final(self).wf(),
            r is Ok ==> final(self).records() == create_model(
                old(self).records(),
                isbn@,
                payload@,
            ),
            r is Err ==> final(self).records() == old(self).records(),
    ;

    /// Looks the record up by key and returns its payload unchanged. A key
    /// that holds no record can only fail: absence is collapsed into the
    /// same opaque error as a store failure.
    fn get(&mut self, isbn: String) -> (r: Result<String, DataError>)
        requires
            old(self).wf(),
        ensures
            final(self).wf(),
            final(self).records() == old(self).records(),
            r matches Ok(p) ==> get_model(old(self).records(), isbn@) == Some(p@),
            get_model(old(self).records(), isbn@) is None ==> r is Err,
    ;

    /// Enumerates every record and renders the payloads that parse as JSON
    /// into one JSON array string, dropping the rest silently. The order is
    /// whatever the backend's scan yields.
    fn list(&mut self) -> (r: Result<String, DataError>)
        requires
            old(self).wf(),
        ensures
            final(self).wf(),
            final(self).records() == old(self).records(),
            r matches Ok(s) ==> exists|es: Seq<(Seq<char>, Seq<char>)>|
                #[trigger] records_listing(old(self).records(), es) && s@ == render_model(
                    listed_payloads(es),
                ),
    ;

    /// Removes the record under `isbn`. Idempotent: removing an absent key
    /// is not an error.
    fn delete(&mut self, isbn: String) -> (r: Result<(), DataError>)
        requires
            old(self).wf(),
        ensures
            final(self).wf(),
            r is Ok ==> final(self).records() == delete_model(old(self).records(), isbn@),
            r is Err ==> final(self).records() == old(self).records(),
    ;
}

/// A call count one higher, held at the counter's ceiling.
pub open spec fn bumped(c: u64) -> u64 {
    if c < u64::MAX {
        (c + 1) as u64
    } else {
        c
    }
}

/// An in-memory backend: one entry per record, keys distinct. Each operation
/// fails on demand through its `fail_` flag and bumps its call counter
/// whether it fails or not, so a test can both simulate store failures and
/// observe how often each operation was attempted.
pub struct MemoryDataAccess {
    pub entries: Vec<(String, String)>,
    pub fail_create: bool,
    pub fail_get: bool,
    pub fail_list: bool,
    pub fail_delete: bool,
    pub calls_create: u64,
    pub calls_get: u64,
    pub calls_list: u64,
    pub calls_delete: u64,
}

/// No two entries share a key.
spec fn unique_keys(s: Seq<(String, String)>) -> bool {
    forall|i: int, j: int| 0 <= i < j < s.len() ==> (#[trigger] s[i]).0@ != (#[trigger] s[j]).0@
}

/// Some entry carries the key `k`.
spec fn has_key(s: Seq<(String, String)>, k: Seq<char>) -> bool {
    exists|i: int| 0 <= i < s.len() && (#[trigger] s[i]).0@ == k
}

/// The map the entries denote; on duplicate keys the later entry wins.
spec fn map_of(s: Seq<(String, String)>) -> Map<Seq<char>, Seq<char>>
    decreases s.len(),
{
    if s.len() == 0 {
        Map::empty()
    } else {
        map_of(s.drop_last()).insert(s.last().0@, s.last().1@)
    }
}

/// The entries with every entry under `k` taken out, order kept.
spec fn drop_key(s: Seq<(String, String)>, k: Seq<char>) -> Seq<(String, String)>
    decreases s.len(),
{
    if s.len() == 0 {
        Seq::empty()
    } else {
        let rest = drop_key(s.drop_last(), k);
        if s.last().0@ == k {
            rest
        } else {
            rest.push(s.last())
        }
    }
}

/// The entries as the model sees them.
spec fn view_entries(s: Seq<(String, String)>) -> Seq<(Seq<char>, Seq<char>)> {
    s.map_values(|e: (String, String)| (e.0@, e.1@))
}

proof fn lemma_map_of_drop_key(s: Seq<(String, String)>, k: Seq<char>)
    ensures
        map_of(drop_key(s, k)) == map_of(s).remove(k),
    decreases s.len(),
{
    if s.len() == 0 {
        assert(map_of(drop_key(s, k)) =~= map_of(s).remove(k));
    } else {
        let u = s.drop_last();
        lemma_map_of_drop_key(u, k);
        if s.last().0@ == k {
            assert(map_of(drop_key(s, k)) =~= map_of(s).remove(k));
        } else {
            assert(drop_key(s, k).drop_last() =~= drop_key(u, k));
            assert(drop_key(s, k).last() == s.last());
            assert(map_of(drop_key(s, k)) =~= map_of(s).remove(k));
        }
    }
}

proof fn lemma_drop_key_keys(s: Seq<(String, String)>, k: Seq<char>)
    ensures
        forall|i: int| 0 <= i < drop_key(s, k).len() ==> (#[trigger] drop_key(s, k)[i]).0@ != k,
        forall|i: int|
            0 <= i < drop_key(s, k).len() ==> has_key(s, (#[trigger] drop_key(s, k)[i]).0@),
        unique_keys(s) ==> unique_keys(drop_key(s, k)),
    decreases s.len(),
{
    if s.len() == 0 {
    } else {
        let u = s.drop_last();
        let rest = drop_key(u, k);
        lemma_drop_key_keys(u, k);
        assert forall|i: int|
            0 <= i < rest.len() implies has_key(s, (#[trigger] rest[i]).0@) by {
            let w = choose|w: int| 0 <= w < u.len() && (#[trigger] u[w]).0@ == rest[i].0@;
            assert(s[w] == u[w]);
        }
        if s.last().0@ != k {
            let d = drop_key(s, k);
            assert(d == rest.push(s.last()));
            assert forall|i: int| 0 <= i < d.len() implies has_key(s, (#[trigger] d[i]).0@) by {
                if i < rest.len() {
                    assert(d[i] == rest[i]);
                } else {
                    assert(d[i] == s.last());
                    assert(s[s.len() - 1].0@ == d[i].0@);
                }
            }
            if unique_keys(s) {
                assert(unique_keys(u));
                assert forall|i: int, j: int| 0 <= i < j < d.len() implies (#[trigger] d[i]).0@ != (
                #[trigger] d[j]).0@ by {
                    if j < rest.len() {
                    } else {
                        assert(d[j] == s.last());
                        if d[i].0@ == s.last().0@ {
                            let w = choose|w: int|
                                0 <= w < u.len() && (#[trigger] u[w]).0@ == rest[i].0@;
                            assert(s[w] == u[w]);
                            assert(s[w].0@ == s[s.len() - 1].0@);
                            assert(false);
                        }
                    }
                }
            }
        } else {
            if unique_keys(s) {
                assert(unique_keys(u));
            }
        }
    }
}

proof fn lemma_map_of_has_key(s: Seq<(String, String)>, k: Seq<char>)
    ensures
        map_of(s).contains_key(k) <==> has_key(s, k),
    decreases s.len(),
{
    if s.len() == 0 {
    } else {
        let u = s.drop_last();
        lemma_map_of_has_key(u, k);
        if s.last().0@ == k {
            assert(s[s.len() - 1].0@ == k);
            assert(has_key(s, k));
        } else {
            if has_key(u, k) {
                let w = choose|w: int| 0 <= w < u.len() && (#[trigger] u[w]).0@ == k;
                assert(s[w] == u[w]);
                assert(has_key(s, k));
            }
            if has_key(s, k) {
                let w = choose|w: int| 0 <= w < s.len() && (#[trigger] s[w]).0@ == k;
                assert(w < u.len());
                assert(u[w] == s[w]);
                assert(has_key(u, k));
            }
        }
    }
}

proof fn lemma_map_of_at(s: Seq<(String, String)>, i: int)
    requires
        unique_keys(s),
        0 <= i < s.len(),
    ensures
        map_of(s).contains_key(s[i].0@),
        map_of(s)[s[i].0@] == s[i].1@,
    decreases s.len(),
{
    if i == s.len() - 1 {
    } else {
        let u = s.drop_last();
        assert(unique_keys(u));
        assert(u[i] == s[i]);
        lemma_map_of_at(u, i);
        assert(s[i].0@ != s[s.len() - 1].0@);
    }
}

/// Under distinct keys, the entries themselves enumerate the map they denote.
proof fn lemma_listing_of_entries(s: Seq<(String, String)>)
    requires
        unique_keys(s),
    ensures
        records_listing(map_of(s), view_entries(s)),
{
    let es = view_entries(s);
    let m = map_of(s);
    assert forall|i: int| 0 <= i < es.len() implies m.contains_key((#[trigger] es[i]).0)
        && m[es[i].0] == es[i].1 by {
        lemma_map_of_at(s, i);
    }
    assert forall|k: Seq<char>| m.contains_key(k) implies exists|i: int|
        0 <= i < es.len() && (#[trigger] es[i]).0 == k by {
        lemma_map_of_has_key(s, k);
        let w = choose|w: int| 0 <= w < s.len() && (#[trigger] s[w]).0@ == k;
        assert(es[w].0 == k);
    }
}

/// Counts one more call, holding at the ceiling rather than wrapping.
fn bump_count(c: u64) -> (r: u64)
    ensures
        r == bumped(c),
{
    if c < u64::MAX {
        c + 1
    } else {
        c
    }
}

/// The entries with every entry under `isbn` left out.
fn remove_key(entries: &Vec<(String, String)>, isbn: &String) -> (r: Vec<(String, String)>)
    ensures
        r@ == drop_key(entries@, isbn@),
{
    let mut out: Vec<(String, String)> = Vec::new();
    let mut i: usize = 0;
    while i < entries.len()
        invariant
            i <= entries@.len(),
            out@ == drop_key(entries@.take(i as int), isbn@),
        decreases entries@.len() - i,
    {
        proof {
            assert(entries@.take(i + 1).drop_last() =~= entries@.take(i as int));
            assert(entries@.take(i + 1).last() == entries@[i as int]);
        }
        let e = &entries[i];
        if !(e.0 == *isbn) {
            out.push((e.0.clone(), e.1.clone()));
        }
        i = i + 1;
    }
    proof {
        assert(entries@.take(entries@.len() as int) =~= entries@);
    }
    out
}

/// The payload of the entry under `isbn`, if any.
fn find_payload(entries: &Vec<(String, String)>, isbn: &String) -> (r: Option<String>)
    requires
        unique_keys(entries@),
    ensures
        r matches Some(p) ==> map_of(entries@).contains_key(isbn@) && map_of(entries@)[isbn@]
            == p@,
        r is None ==> !map_of(entries@).contains_key(isbn@),
{
    let mut i: usize = 0;
    while i < entries.len()
        invariant
            i <= entries@.len(),
            unique_keys(entries@),
            forall|j: int| 0 <= j < i ==> (#[trigger] entries@[j]).0@ != isbn@,
        decreases entries@.len() - i,
    {
        let e = &entries[i];
        if e.0 == *isbn {
            proof {
                lemma_map_of_at(entries@, i as int);
            }
            return Some(e.1.clone());
        }
        i = i + 1;
    }
    proof {
        lemma_map_of_has_key(entries@, isbn@);
        if has_key(entries@, isbn@) {
            let w = choose|w: int|
                0 <= w < entries@.len() && (#[trigger] entries@[w]).0@ == isbn@;
            assert(false);
        }
    }
    None
}

/// Each entry's payload, in entry order, every one present.
fn collect_payloads(entries: &Vec<(String, String)>) -> (r: Vec<Option<String>>)
    ensures
        opt_views(r@) == listed_payloads(view_entries(entries@)),
{
    let mut out: Vec<Option<String>> = Vec::new();
    let mut i: usize = 0;
    while i < entries.len()
        invariant
            i <= entries@.len(),
            out@.len() == i,
            opt_views(out@) =~= listed_payloads(view_entries(entries@.take(i as int))),
        decreases entries@.len() - i,
    {
        let ghost prev = out@;
        let e = &entries[i];
        out.push(Some(e.1.clone()));
        proof {
            let t = entries@.take(i + 1);
            assert forall|j: int|
                0 <= j < out@.len() implies opt_views(out@)[j] == listed_payloads(
                view_entries(t),
            )[j] by {
                assert(t[j] == entries@[j]);
                if j < i {
                    assert(out@[j] == prev[j]);
                    assert(opt_views(prev)[j] == listed_payloads(
                        view_entries(entries@.take(i as int)),
                    )[j]);
                    assert(entries@.take(i as int)[j] == entries@[j]);
                } else {
                    assert(out@[j] == Some(e.1));
                }
            }
            assert(opt_views(out@) =~= listed_payloads(view_entries(t)));
        }
        i = i + 1;
    }
    proof {
        assert(entries@.take(entries@.len() as int) =~= entries@);
    }
    out
}

impl MemoryDataAccess {
    /// An empty backend: no records, no failures armed, all counters at zero.
    pub fn new() -> (r: MemoryDataAccess)
        ensures
            r.wf(),
            r.records() == Map::<Seq<char>, Seq<char>>::empty(),
            !r.fail_create && !r.fail_get && !r.fail_list && !r.fail_delete,
            r.calls_create == 0 && r.calls_get == 0 && r.calls_list == 0 && r.calls_delete == 0,
    {
        let r = MemoryDataAccess {
            entries: Vec::new(),
            fail_create: false,
            fail_get: false,
            fail_list: false,
            fail_delete: false,
            calls_create: 0,
            calls_get: 0,
            calls_list: 0,
            calls_delete: 0,
        };
        proof {
            assert(r.records() =~= Map::<Seq<char>, Seq<char>>::empty());
        }
        r
    }
}

impl DataAccess for MemoryDataAccess {
    closed spec fn wf(&self) -> bool {
        unique_keys(self.entries@)
    }

    closed spec fn records(&self) -> Map<Seq<char>, Seq<char>> {
        map_of(self.entries@)
    }

    fn create(&mut self, isbn: String, payload: String) -> (r: Result<(), DataError>)
        ensures
            r is Ok <==> !old(self).fail_create,
            final(self).calls_create == bumped(old(self).calls_create),
            final(self).calls_get == old(self).calls_get,
            final(self).calls_list == old(self).calls_list,
            final(self).calls_delete == old(self).calls_delete,
            final(self).fail_create == old(self).fail_create,
            final(self).fail_get == old(self).fail_get,
            final(self).fail_list == old(self).fail_list,
            final(self).fail_delete == old(self).fail_delete,
    {
        self.calls_create = bump_count(self.calls_create);
        if self.fail_create {
            return Err(DataError);
        }
        let ghost before = self.entries@;
        let mut pruned = remove_key(&self.entries, &isbn);
        proof {
            lemma_map_of_drop_key(before, isbn@);
            lemma_drop_key_keys(before, isbn@);
        }
        pruned.push((isbn, payload));
        self.entries = pruned;
        proof {
            let now = self.entries@;
            assert(now.drop_last() =~= drop_key(before, isbn@));
            assert(map_of(now) =~= map_of(before).insert(now.last().0@, now.last().1@));
            assert forall|i: int, j: int| 0 <= i < j < now.len() implies (#[trigger] now[i]).0@
                != (#[trigger] now[j]).0@ by {
                if j < now.len() - 1 {
                    assert(now[i] == drop_key(before, isbn@)[i]);
                    assert(now[j] == drop_key(before, isbn@)[j]);
                } else {
                    assert(now[i] == drop_key(before, isbn@)[i]);
                }
            }
        }
        Ok(())
    }

    fn get(&mut self, isbn: String) -> (r: Result<String, DataError>)
        ensures
            r is Ok <==> !old(self).fail_get && old(self).records().contains_key(isbn@),
            final(self).calls_get == bumped(old(self).calls_get),
            final(self).calls_create == old(self).calls_create,
            final(self).calls_list == old(self).calls_list,
            final(self).calls_delete == old(self).calls_delete,
            final(self).fail_create == old(self).fail_create,
            final(self).fail_get == old(self).fail_get,
            final(self).fail_list == old(self).fail_list,
            final(self).fail_delete == old(self).fail_delete,
    {
        self.calls_get = bump_count(self.calls_get);
        if self.fail_get {
            return Err(DataError);
        }
        match find_payload(&self.entries, &isbn) {
            Some(p) => Ok(p),
            None => Err(DataError),
        }
    }

    fn list(&mut self) -> (r: Result<String, DataError>)
        ensures
            r is Ok <==> !old(self).fail_list,
            final(self).calls_list == bumped(old(self).calls_list),
            final(self).calls_create == old(self).calls_create,
            final(self).calls_get == old(self).calls_get,
            final(self).calls_delete == old(self).calls_delete,
            final(self).fail_create == old(self).fail_create,
            final(self).fail_get == old(self).fail_get,
            final(self).fail_list == old(self).fail_list,
            final(self).fail_delete == old(self).fail_delete,
    {
        self.calls_list = bump_count(self.calls_list);
        if self.fail_list {
            return Err(DataError);
        }
        let ps = collect_payloads(&self.entries);
        let s = render_payloads(&ps);
        proof {
            lemma_listing_of_entries(self.entries@);
            let es = view_entries(self.entries@);
            assert(records_listing(self.records(), es) && s@ == render_model(
                listed_payloads(es),
            ));
        }
        Ok(s)
    }

    fn delete(&mut self, isbn: String) -> (r: Result<(), DataError>)
        ensures
            r is Ok <==> !old(self).fail_delete,
            final(self).calls_delete == bumped(old(self).calls_delete),
            final(self).calls_create == old(self).calls_create,
            final(self).calls_get == old(self).calls_get,
            final(self).calls_list == old(self).calls_list,
            final(self).fail_create == old(self).fail_create,
            final(self).fail_get == old(self).fail_get,
            final(self).fail_list == old(self).fail_list,
            final(self).fail_delete == old(self).fail_delete,
    {
        self.calls_delete = bump_count(self.calls_delete);
        if self.fail_delete {
            return Err(DataError);
        }
        let ghost before = self.entries@;
        let pruned = remove_key(&self.entries, &isbn);
        self.entries = pruned;
        proof {
            lemma_map_of_drop_key(before, isbn@);
            lemma_drop_key_keys(before, isbn@);
        }
        Ok(())
    }
}

} // verus!
