use vstd::prelude::*;
use crate::http::{finish_resolve, Redirect, MOVED_PERMANENTLY};
use crate::link::{Link, LinkModel};

verus! {

/// Why an operation on the link table failed.
#[derive(Clone, Copy, Debug, PartialEq, Eq, Structural)]
pub enum StoreError {
    /// No record has the identifier asked for.
    NotFound,
    /// Every identifier that an integer column holds was handed out.
    IdsExhausted,
    /// The visit counter would leave the range of an integer column.
    CountOutOfRange,
    /// The table could not be reached or failed otherwise.
    Unavailable,
}

/// Whether `rows`, with `next_id` as the identifier of the next creation,
/// make a table: each identifier in 1..next_id and used once, no counter
/// negative, and `next_id` in range or one past it.
pub open spec fn rows_form_table(rows: Seq<Link>, next_id: int) -> bool {
    &&& 1 <= next_id <= column_max() + 1
    &&& forall|i: int| 0 <= i < rows.len() ==> 1 <= #[trigger] rows[i].id < next_id
    &&& forall|i: int| 0 <= i < rows.len() ==> #[trigger] rows[i].count >= 0
    &&& forall|i: int, j: int|
        0 <= i < rows.len() && 0 <= j < rows.len() && i != j ==> #[trigger] rows[i].id
            != #[trigger] rows[j].id
}

/// The table as a mathematical value: each identifier in use with its
/// record, and the identifier that the next creation assigns.
pub ghost struct StoreView {
    pub links: Map<int, LinkModel>,
    pub next_id: int,
}

/// The largest value that an integer column holds.
pub open spec fn column_max() -> int {
    i32::MAX as int
}

/// What holds of every table: identifiers are positive and below the next
/// one, counters are not negative, and the next identifier is in range or
/// one past it.
pub open spec fn valid(v: StoreView) -> bool {
    &&& 1 <= v.next_id <= column_max() + 1
    &&& forall|k: int| #[trigger] v.links.contains_key(k) ==> 1 <= k < v.next_id
    &&& forall|k: int| #[trigger] v.links.contains_key(k) ==> v.links[k].count >= 0
}

/// The table that nothing was created in yet.
pub open spec fn empty_view() -> StoreView {
    StoreView { links: Map::empty(), next_id: 1 }
}

/// The record with identifier `id`, if there is one.
pub open spec fn find_spec(v: StoreView, id: int) -> Option<LinkModel> {
    if v.links.contains_key(id) {
        Some(v.links[id])
    } else {
        None
    }
}

/// Whether a creation can still assign an identifier.
pub open spec fn can_insert(v: StoreView) -> bool {
    v.next_id <= column_max()
}

/// The table after a record with destination `url` was created.
pub open spec fn insert_spec(v: StoreView, url: Seq<char>) -> StoreView {
    StoreView {
        links: v.links.insert(v.next_id, LinkModel { url, count: 0 }),
        next_id: v.next_id + 1,
    }
}

/// The table after the record with identifier `id`, if any, was removed.
pub open spec fn delete_spec(v: StoreView, id: int) -> StoreView {
    StoreView { links: v.links.remove(id), next_id: v.next_id }
}

/// Whether the counter of record `id` can grow by one.
pub open spec fn can_increment(v: StoreView, id: int) -> bool {
    v.links.contains_key(id) ==> v.links[id].count < column_max()
}

/// The table after the counter of record `id` grew by one; unchanged where
/// there is no such record, or where its counter cannot grow.
pub open spec fn increment_spec(v: StoreView, id: int) -> StoreView {
    if v.links.contains_key(id) && can_increment(v, id) {
        StoreView {
            links: v.links.insert(
                id,
                LinkModel { url: v.links[id].url, count: v.links[id].count + 1 },
            ),
            next_id: v.next_id,
        }
    } else {
        v
    }
}

/// What resolving `id` yields: the stored destination, or why it failed.
pub open spec fn resolve_result(v: StoreView, id: int) -> Result<Seq<char>, StoreError> {
    match find_spec(v, id) {
        None => Err(StoreError::NotFound),
        Some(m) => if can_increment(v, id) {
            Ok(m.url)
        } else {
            Err(StoreError::CountOutOfRange)
        },
    }
}

/// The outcome of a resolution as the target it redirects to.
pub open spec fn redirect_target(r: Result<Redirect, StoreError>) -> Result<Seq<char>, StoreError> {
    match r {
        Ok(d) => Ok(d.location@),
        Err(e) => Err(e),
    }
}

/// The table of link records.
pub struct LinkStore {
    rows: Vec<Link>,
    next_id: i64,
    links: Ghost<Map<int, LinkModel>>,
}

impl View for LinkStore {
    type V = StoreView;

    closed spec fn view(&self) -> StoreView {
        StoreView { links: self.links@, next_id: self.next_id as int }
    }
}

impl LinkStore {
    /// The rows agree with the model, one row per identifier.
    pub closed spec fn wf(&self) -> bool {
        &&& valid(self@)
        &&& forall|i: int|
            0 <= i < self.rows@.len() ==> {
                &&& self.links@.contains_key(#[trigger] self.rows@[i].id as int)
                &&& self.links@[self.rows@[i].id as int] == self.rows@[i].model()
            }
        &&& forall|i: int, j: int|
            0 <= i < self.rows@.len() && 0 <= j < self.rows@.len() && i != j
                ==> #[trigger] self.rows@[i].id != #[trigger] self.rows@[j].id
        &&& forall|k: int|
            #[trigger] self.links@.contains_key(k) ==> exists|i: int|
                0 <= i < self.rows@.len() && #[trigger] self.rows@[i].id as int == k
    }

    /// A well-formed table's model is valid.
    pub proof fn lemma_valid(&self)
        requires
            self.wf(),
        ensures
            valid(self@),
    {
    }

    /// An empty table, whose first record gets identifier 1.
    pub fn new() -> (r: LinkStore)
        ensures
            r.wf(),
            r@ == empty_view(),
    {
        LinkStore { rows: Vec::new(), next_id: 1, links: Ghost(Map::empty()) }
    }

    /// The record with identifier `id`; `NotFound` where there is none.
    pub fn find(&self, id: i32) -> (r: Result<Link, StoreError>)
        requires
            self.wf(),
        ensures
            r is Ok <==> self@.links.contains_key(id as int),
            match r {
                Ok(l) => l.id == id && find_spec(self@, id as int) == Some(l.model()),
                Err(e) => e == StoreError::NotFound,
            },
    {
        match self.position(id) {
            Some(i) => Ok(self.rows[i].duplicate()),
            None => Err(StoreError::NotFound),
        }
    }

    /// Every record of the table, each once; the order is not part of the
    /// contract.
    pub fn list_all(&self) -> (r: Vec<Link>)
        requires
            self.wf(),
        ensures
            forall|i: int|
                0 <= i < r@.len() ==> #[trigger] find_spec(self@, r@[i].id as int) == Some(
                    r@[i].model(),
                ),
            forall|i: int, j: int|
                0 <= i < r@.len() && 0 <= j < r@.len() && i != j ==> #[trigger] r@[i].id
                    != #[trigger] r@[j].id,
            forall|k: int|
                #[trigger] self@.links.contains_key(k) ==> exists|i: int|
                    0 <= i < r@.len() && #[trigger] r@[i].id as int == k,
    {
        let mut out: Vec<Link> = Vec::new();
        let mut i: usize = 0;
        while i < self.rows.len()
            invariant
                self.wf(),
                i <= self.rows@.len(),
                out@.len() == i,
                forall|j: int|
                    0 <= j < i ==> (#[trigger] out@[j]).id == self.rows@[j].id && out@[j].model()
                        == self.rows@[j].model(),
            decreases self.rows@.len() - i,
        {
            let row = self.rows[i].duplicate();
            out.push(row);
            i = i + 1;
        }
        assert forall|k: int| #[trigger] self@.links.contains_key(k) implies exists|i: int|
            0 <= i < out@.len() && #[trigger] out@[i].id as int == k by {
            let i = choose|i: int| 0 <= i < self.rows@.len() && #[trigger] self.rows@[i].id as int == k;
            assert(out@[i].id as int == k);
        }
        assert forall|i: int, j: int|
            0 <= i < out@.len() && 0 <= j < out@.len() && i != j implies #[trigger] out@[i].id
                != #[trigger] out@[j].id by {
            assert(self.rows@[i].id != self.rows@[j].id);
        }
        assert forall|i: int| 0 <= i < out@.len() implies #[trigger] find_spec(
            self@,
            out@[i].id as int,
        ) == Some(out@[i].model()) by {
            assert(self.links@.contains_key(self.rows@[i].id as int));
        }
        out
    }

    /// Creates a record with destination `url` and counter 0, under the
    /// next identifier, and returns it. The destination is stored as it
    /// stands. Fails with `IdsExhausted`, leaving the table as it was, once
    /// every identifier is taken.
    pub fn insert(&mut self, url: String) -> (r: Result<Link, StoreError>)
        requires
            old(self).wf(),
        ensures
            final(self).wf(),
            r is Ok <==> can_insert(old(self)@),
            match r {
                Ok(l) => {
                    &&& l.id == old(self)@.next_id
                    &&& l.link@ == url@
                    &&& l.count == 0
                    &&& !old(self)@.links.contains_key(l.id as int)
                    &&& final(self)@ == insert_spec(old(self)@, url@)
                },
                Err(e) => e == StoreError::IdsExhausted && final(self)@ == old(self)@,
            },
    {
        if self.next_id > i32::MAX as i64 {
            return Err(StoreError::IdsExhausted);
        }
        let id = self.next_id as i32;
        let ghost url_view = url@;
        let row = Link::new(id, url, 0);
        let out = row.duplicate();
        let ghost old_rows = self.rows@;
        let ghost old_links = self.links@;
        let ghost new_row = row;
        assert(id as int == old(self)@.next_id);
        assert(old(self)@.links == old_links);
        assert(forall|k: int| old_links.contains_key(k) ==> k < id);
        self.rows.push(row);
        self.links = Ghost(self.links@.insert(id as int, LinkModel { url: url_view, count: 0 }));
        self.next_id = self.next_id + 1;
        assert forall|i: int| 0 <= i < self.rows@.len() implies {
            &&& self.links@.contains_key(#[trigger] self.rows@[i].id as int)
            &&& self.links@[self.rows@[i].id as int] == self.rows@[i].model()
        } by {
            if i < old_rows.len() {
                assert(old_rows[i] == self.rows@[i]);
                assert(old_links.contains_key(old_rows[i].id as int));
            } else {
                assert(self.rows@[i] == new_row);
            }
        }
        assert forall|i: int, j: int|
            0 <= i < self.rows@.len() && 0 <= j < self.rows@.len() && i != j
                implies #[trigger] self.rows@[i].id != #[trigger] self.rows@[j].id by {
            if i < old_rows.len() {
                assert(old_links.contains_key(old_rows[i].id as int));
            }
            if j < old_rows.len() {
                assert(old_links.contains_key(old_rows[j].id as int));
            }
        }
        assert forall|k: int| #[trigger] self.links@.contains_key(k) implies exists|i: int|
            0 <= i < self.rows@.len() && #[trigger] self.rows@[i].id as int == k by {
            if k == id as int {
                assert(self.rows@[old_rows.len() as int].id as int == k);
            } else {
                let i = choose|i: int| 0 <= i < old_rows.len() && #[trigger] old_rows[i].id as int == k;
                assert(self.rows@[i].id as int == k);
            }
        }
        Ok(out)
    }

    /// Removes the record with identifier `id` and returns it as it was;
    /// `NotFound`, with the table unchanged, where there is none.
    pub fn delete(&mut self, id: i32) -> (r: Result<Link, StoreError>)
        requires
            old(self).wf(),
        ensures
            final(self).wf(),
            r is Ok <==> old(self)@.links.contains_key(id as int),
            final(self)@ == delete_spec(old(self)@, id as int),
            match r {
                Ok(l) => l.id == id && find_spec(old(self)@, id as int) == Some(l.model()),
                Err(e) => e == StoreError::NotFound,
            },
    {
        match self.position(id) {
            None => {
                assert(self.links@.remove(id as int) =~= self.links@);
                Err(StoreError::NotFound)
            },
            Some(p) => {
                let ghost old_rows = self.rows@;
                let ghost old_links = self.links@;
                let row = self.rows.remove(p);
                self.links = Ghost(self.links@.remove(id as int));
                assert forall|i: int| 0 <= i < self.rows@.len() implies {
                    &&& self.links@.contains_key(#[trigger] self.rows@[i].id as int)
                    &&& self.links@[self.rows@[i].id as int] == self.rows@[i].model()
                } by {
                    if i < p {
                        assert(old_rows[i] == self.rows@[i]);
                        assert(old_rows[i].id != old_rows[p as int].id);
                    } else {
                        assert(old_rows[i + 1] == self.rows@[i]);
                        assert(old_rows[i + 1].id != old_rows[p as int].id);
                    }
                }
                assert forall|i: int, j: int|
                    0 <= i < self.rows@.len() && 0 <= j < self.rows@.len() && i != j
                        implies #[trigger] self.rows@[i].id != #[trigger] self.rows@[j].id by {
                    let oi = if i < p { i } else { i + 1 };
                    let oj = if j < p { j } else { j + 1 };
                    assert(old_rows[oi] == self.rows@[i]);
                    assert(old_rows[oj] == self.rows@[j]);
                    assert(old_rows[oi].id != old_rows[oj].id);
                }
                assert forall|k: int| #[trigger] self.links@.contains_key(k) implies exists|i: int|
                    0 <= i < self.rows@.len() && #[trigger] self.rows@[i].id as int == k by {
                    assert(old_links.contains_key(k));
                    let oi = choose|i: int| 0 <= i < old_rows.len() && #[trigger] old_rows[i].id as int == k;
                    assert(oi != p);
                    let i = if oi < p { oi } else { oi - 1 };
                    assert(self.rows@[i] == old_rows[oi]);
                    assert(self.rows@[i].id as int == k);
                }
                Ok(row)
            },
        }
    }

    /// Adds one to the counter of record `id`. Where there is no such record
    /// nothing changes and the call succeeds; where the counter is at the
    /// column's maximum nothing changes and the call fails with
    /// `CountOutOfRange`.
    pub fn increment(&mut self, id: i32) -> (r: Result<(), StoreError>)
        requires
            old(self).wf(),
        ensures
            final(self).wf(),
            r is Ok <==> can_increment(old(self)@, id as int),
            r is Err ==> r == Err::<(), StoreError>(StoreError::CountOutOfRange),
            final(self)@ == increment_spec(old(self)@, id as int),
    {
        match self.position(id) {
            None => Ok(()),
            Some(p) => {
                if self.rows[p].count == i32::MAX {
                    return Err(StoreError::CountOutOfRange);
                }
                let ghost old_rows = self.rows@;
                let mut row = self.rows[p].duplicate();
                row.count = row.count + 1;
                let ghost m = row.model();
                self.rows.set(p, row);
                self.links = Ghost(self.links@.insert(id as int, m));
                assert forall|i: int| 0 <= i < self.rows@.len() implies {
                    &&& self.links@.contains_key(#[trigger] self.rows@[i].id as int)
                    &&& self.links@[self.rows@[i].id as int] == self.rows@[i].model()
                } by {
                    if i != p {
                        assert(old_rows[i] == self.rows@[i]);
                        assert(old_rows[i].id != old_rows[p as int].id);
                    }
                }
                assert forall|k: int| #[trigger] self.links@.contains_key(k) implies exists|i: int|
                    0 <= i < self.rows@.len() && #[trigger] self.rows@[i].id as int == k by {
                    if k == id as int {
                        assert(self.rows@[p as int].id as int == k);
                    } else {
                        let i = choose|i: int| 0 <= i < old_rows.len() && #[trigger] old_rows[i].id as int == k;
                        assert(self.rows@[i].id == old_rows[i].id);
                    }
                }
                assert(self@ == increment_spec(old(self)@, id as int));
                Ok(())
            },
        }
    }

    /// Resolves `id`: reads its record, then adds one to its counter, and
    /// redirects permanently to the stored destination. The read and the
    /// increment are two steps, as `find` and `increment` are.
    pub fn resolve(&mut self, id: i32) -> (r: Result<Redirect, StoreError>)
        requires
            old(self).wf(),
        ensures
            final(self).wf(),
            redirect_target(r) == resolve_result(old(self)@, id as int),
            r matches Ok(d) ==> d.status == MOVED_PERMANENTLY,
            final(self)@ == increment_spec(old(self)@, id as int),
    {
        let link = match self.find(id) {
            Ok(l) => l,
            Err(e) => return Err(e),
        };
        let incremented = self.increment(id);
        finish_resolve(&link, incremented)
    }

    /// The table that holds `rows` and assigns `next_id` on the next
    /// creation, as a listing of a stored table gives them; `None` where
    /// they do not make a table.
    pub fn from_rows(rows: Vec<Link>, next_id: i64) -> (r: Option<LinkStore>)
        ensures
            r is Some <==> rows_form_table(rows@, next_id as int),
            match r {
                Some(s) => {
                    &&& s.wf()
                    &&& s@.next_id == next_id
                    &&& forall|i: int|
                        0 <= i < rows@.len() ==> #[trigger] find_spec(s@, rows@[i].id as int)
                            == Some(rows@[i].model())
                    &&& forall|k: int|
                        #[trigger] s@.links.contains_key(k) ==> exists|i: int|
                            0 <= i < rows@.len() && #[trigger] rows@[i].id as int == k
                },
                None => true,
            },
    {
        if next_id < 1 || next_id > i32::MAX as i64 + 1 {
            return None;
        }
        let mut i: usize = 0;
        while i < rows.len()
            invariant
                1 <= next_id <= column_max() + 1,
                i <= rows@.len(),
                forall|a: int| 0 <= a < i ==> 1 <= #[trigger] rows@[a].id < next_id,
                forall|a: int| 0 <= a < i ==> #[trigger] rows@[a].count >= 0,
                forall|a: int, b: int|
                    0 <= a < i && 0 <= b < i && a != b ==> #[trigger] rows@[a].id
                        != #[trigger] rows@[b].id,
            decreases rows@.len() - i,
        {
            let id = rows[i].id;
            if id < 1 || id as i64 >= next_id || rows[i].count < 0 {
                return None;
            }
            let mut j: usize = 0;
            while j < i
                invariant
                    i < rows@.len(),
                    j <= i,
                    id == rows@[i as int].id,
                    forall|b: int| 0 <= b < j ==> rows@[b].id != id,
                decreases i - j,
            {
                if rows[j].id == id {
                    return None;
                }
                j = j + 1;
            }
            i = i + 1;
        }
        let ghost links = Map::new(
            |k: int| exists|a: int| 0 <= a < rows@.len() && #[trigger] rows@[a].id as int == k,
            |k: int|
                rows@[choose|a: int| 0 <= a < rows@.len() && #[trigger] rows@[a].id as int == k].model(),
        );
        let s = LinkStore { rows, next_id, links: Ghost(links) };
        assert forall|a: int| 0 <= a < s.rows@.len() implies {
            &&& s.links@.contains_key(#[trigger] s.rows@[a].id as int)
            &&& s.links@[s.rows@[a].id as int] == s.rows@[a].model()
        } by {
            let k = s.rows@[a].id as int;
            assert(links.contains_key(k));
            let c = choose|c: int| 0 <= c < s.rows@.len() && #[trigger] s.rows@[c].id as int == k;
            assert(c == a);
        }
        assert forall|k: int| #[trigger] s.links@.contains_key(k) implies 1 <= k < next_id
            && s.links@[k].count >= 0 by {
            let c = choose|c: int| 0 <= c < s.rows@.len() && #[trigger] s.rows@[c].id as int == k;
            assert(1 <= s.rows@[c].id < next_id);
            assert(s.rows@[c].count >= 0);
        }
        Some(s)
    }

    /// The index of the row with identifier `id`.
    fn position(&self, id: i32) -> (r: Option<usize>)
        requires
            self.wf(),
        ensures
            match r {
                Some(i) => i < self.rows@.len() && self.rows@[i as int].id == id,
                None => !self@.links.contains_key(id as int),
            },
    {
        let mut i: usize = 0;
        while i < self.rows.len()
            invariant
                self.wf(),
                i <= self.rows@.len(),
                forall|j: int| 0 <= j < i ==> self.rows@[j].id != id,
            decreases self.rows@.len() - i,
        {
            if self.rows[i].id == id {
                return Some(i);
            }
            i = i + 1;
        }
        None
    }
}

} // verus!
