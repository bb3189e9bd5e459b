//! Stable, deterministic ordering and paging of doc-status listings.
use crate::doc_status::{
    filtered, lemma_key_set_len, status_of, DocProcessingStatus, DocRecord, DocRecordView,
    DocStatus, JsonDocStatusStorage,
};
use crate::keyed::{has_key, key_set, keys_unique};
use crate::order::{
    chars_lt, lemma_lt_asymmetric, lemma_lt_irreflexive, lemma_lt_total, lemma_lt_transitive,
    seq_lt,
};
use crate::text::chars_of;
use vstd::prelude::*;
use vstd::string::*;

verus! {

/// Text of `s` in lower case, as `str::to_lowercase` gives it.
pub uninterp spec fn lower_of(s: Seq<char>) -> Seq<char>;

/// Relies on `str::to_lowercase`: the result depends on the text alone.
#[verifier::external_body]
fn to_lowercase(s: &str) -> (r: String)
    ensures
        r@ == lower_of(s@),
{
    s.to_lowercase()
}

/// Field that a listing is sorted by.
#[derive(Clone, Copy, Debug, PartialEq, Eq, Structural)]
pub enum SortField {
    CreatedAt,
    UpdatedAt,
    Id,
    FilePath,
}

/// The sort field named by `s`; `updated_at` for any other name.
pub open spec fn sort_field_of(s: Seq<char>) -> SortField {
    if s == "created_at"@ {
        SortField::CreatedAt
    } else if s == "id"@ {
        SortField::Id
    } else if s == "file_path"@ {
        SortField::FilePath
    } else {
        SortField::UpdatedAt
    }
}

/// `s` is `"asc"` ignoring ASCII case.
pub open spec fn is_asc(s: Seq<char>) -> bool {
    s.len() == 3 && (s[0] == 'a' || s[0] == 'A') && (s[1] == 's' || s[1] == 'S') && (s[2] == 'c'
        || s[2] == 'C')
}

/// Listings are descending unless the direction is `"asc"`.
pub open spec fn is_desc(s: Seq<char>) -> bool {
    !is_asc(s)
}

/// Sort key of document `id` with record `r`.
pub open spec fn sort_key(r: DocRecordView, id: Seq<char>, f: SortField) -> Seq<char> {
    match f {
        SortField::CreatedAt => match r.created_at {
            Some(t) => t,
            None => Seq::empty(),
        },
        SortField::UpdatedAt => match r.updated_at {
            Some(t) => t,
            None => Seq::empty(),
        },
        SortField::Id => id,
        SortField::FilePath => lower_of(
            match r.file_path {
                Some(p) => p,
                None => "no-file-path"@,
            },
        ),
    }
}

/// Ascending order: by sort key, then by id.
pub open spec fn asc_before(m: Map<Seq<char>, DocRecordView>, f: SortField, a: Seq<char>, b: Seq<char>) -> bool {
    let ka = sort_key(m[a], a, f);
    let kb = sort_key(m[b], b, f);
    seq_lt(ka, kb) || (ka == kb && seq_lt(a, b))
}

/// `x` is listed before `y`.
pub open spec fn before(m: Map<Seq<char>, DocRecordView>, f: SortField, desc: bool, x: Seq<char>, y: Seq<char>) -> bool {
    if desc {
        asc_before(m, f, y, x)
    } else {
        asc_before(m, f, x, y)
    }
}

/// `s` lists the documents `ids` exactly once each, in order.
pub open spec fn sorted_listing(s: Seq<Seq<char>>, ids: Set<Seq<char>>, m: Map<Seq<char>, DocRecordView>, f: SortField, desc: bool) -> bool {
    &&& s.no_duplicates()
    &&& forall|k: Seq<char>| ids.contains(k) <==> s.contains(k)
    &&& forall|i: int, j: int| 0 <= i < j < s.len() ==> before(m, f, desc, #[trigger] s[i], #[trigger] s[j])
}

/// The listing of `ids` in order.
pub open spec fn listing(ids: Set<Seq<char>>, m: Map<Seq<char>, DocRecordView>, f: SortField, desc: bool) -> Seq<Seq<char>> {
    choose|s: Seq<Seq<char>>| sorted_listing(s, ids, m, f, desc)
}

pub proof fn lemma_before_order(m: Map<Seq<char>, DocRecordView>, f: SortField, desc: bool, x: Seq<char>, y: Seq<char>, z: Seq<char>)
    ensures
        !before(m, f, desc, x, x),
        before(m, f, desc, x, y) ==> !before(m, f, desc, y, x),
        before(m, f, desc, x, y) && before(m, f, desc, y, z) ==> before(m, f, desc, x, z),
        x != y ==> before(m, f, desc, x, y) || before(m, f, desc, y, x),
{
    let kx = sort_key(m[x], x, f);
    let ky = sort_key(m[y], y, f);
    let kz = sort_key(m[z], z, f);
    lemma_lt_irreflexive(kx);
    lemma_lt_irreflexive(x);
    lemma_lt_asymmetric(kx, ky);
    lemma_lt_asymmetric(ky, kx);
    lemma_lt_asymmetric(x, y);
    lemma_lt_asymmetric(y, x);
    lemma_lt_transitive(kx, ky, kz);
    lemma_lt_transitive(kz, ky, kx);
    lemma_lt_transitive(x, y, z);
    lemma_lt_transitive(z, y, x);
    lemma_lt_total(kx, ky);
    lemma_lt_total(x, y);
}

/// Two listings of the same documents in the same order are equal.
pub proof fn lemma_listing_unique(s1: Seq<Seq<char>>, s2: Seq<Seq<char>>, ids: Set<Seq<char>>, m: Map<Seq<char>, DocRecordView>, f: SortField, desc: bool)
    requires
        sorted_listing(s1, ids, m, f, desc),
        sorted_listing(s2, ids, m, f, desc),
    ensures
        s1 == s2,
    decreases s1.len(),
{
    if s1.len() == 0 {
        if s2.len() > 0 {
            assert(s2.contains(s2[0]));
            assert(!s1.contains(s2[0]));
        }
        assert(s1 =~= s2);
    } else {
        assert(s1.contains(s1[0]));
        assert(s2.contains(s1[0]));
        assert(s2.len() > 0);
        let a = s1[0];
        let b = s2[0];
        if a != b {
            assert(s1.contains(b));
            let j = choose|j: int| 0 <= j < s1.len() && s1[j] == b;
            let k = choose|k: int| 0 <= k < s2.len() && s2[k] == a;
            assert(j != 0 && k != 0);
            assert(before(m, f, desc, s1[0], s1[j]));
            assert(before(m, f, desc, s2[0], s2[k]));
            lemma_before_order(m, f, desc, a, b, a);
        }
        let ids2 = ids.remove(a);
        let t1 = s1.drop_first();
        let t2 = s2.drop_first();
        assert forall|k: Seq<char>| ids2.contains(k) <==> t1.contains(k) by {
            if t1.contains(k) {
                let i = choose|i: int| 0 <= i < t1.len() && t1[i] == k;
                assert(s1[i + 1] == k);
                assert(s1.contains(k));
            }
            if ids2.contains(k) {
                assert(s1.contains(k));
                let i = choose|i: int| 0 <= i < s1.len() && s1[i] == k;
                assert(t1[i - 1] == k);
            }
        }
        assert forall|k: Seq<char>| ids2.contains(k) <==> t2.contains(k) by {
            if t2.contains(k) {
                let i = choose|i: int| 0 <= i < t2.len() && t2[i] == k;
                assert(s2[i + 1] == k);
                assert(s2.contains(k));
            }
            if ids2.contains(k) {
                assert(s2.contains(k));
                let i = choose|i: int| 0 <= i < s2.len() && s2[i] == k;
                assert(t2[i - 1] == k);
            }
        }
        assert forall|i: int, j: int| 0 <= i < j < t1.len() implies before(m, f, desc, #[trigger] t1[i], #[trigger] t1[j]) by {
            assert(t1[i] == s1[i + 1] && t1[j] == s1[j + 1]);
        }
        assert forall|i: int, j: int| 0 <= i < j < t2.len() implies before(m, f, desc, #[trigger] t2[i], #[trigger] t2[j]) by {
            assert(t2[i] == s2[i + 1] && t2[j] == s2[j + 1]);
        }
        lemma_listing_unique(t1, t2, ids2, m, f, desc);
        assert(s1 =~= seq![a] + t1);
        assert(s2 =~= seq![a] + t2);
    }
}

/// The page size used: `page_size` clamped into `[10, 200]`.
pub open spec fn clamp_size(page_size: nat) -> nat {
    if page_size < 10 {
        10
    } else if page_size > 200 {
        200
    } else {
        page_size
    }
}

/// First listing position of page `page` (numbered from 1; 0 counts as 1).
pub open spec fn page_start(page: nat, page_size: nat) -> nat {
    ((if page < 1 { 1 } else { page }) - 1) as nat * clamp_size(page_size)
}

/// Number of entries on that page of a listing of `total` entries.
pub open spec fn page_len(page: nat, page_size: nat, total: nat) -> nat {
    let start = page_start(page, page_size);
    if start >= total {
        0
    } else if start + clamp_size(page_size) < total {
        clamp_size(page_size)
    } else {
        (total - start) as nat
    }
}

fn chars_eq(a: &Vec<char>, b: &Vec<char>) -> (r: bool)
    ensures
        r == (a@ == b@),
{
    if a.len() != b.len() {
        return false;
    }
    let mut i: usize = 0;
    while i < a.len()
        invariant
            a@.len() == b@.len(),
            i <= a@.len(),
            forall|j: int| 0 <= j < i ==> a@[j] == b@[j],
        decreases a.len() - i,
    {
        if a[i] != b[i] {
            return false;
        }
        i = i + 1;
    }
    assert(a@ =~= b@);
    true
}

pub(crate) fn str_eq(a: &str, b: &str) -> (r: bool)
    ensures
        r == (a@ == b@),
{
    let x = chars_of(a);
    let y = chars_of(b);
    chars_eq(&x, &y)
}

/// The sort field named by `s`.
pub fn parse_sort_field(s: &str) -> (r: SortField)
    ensures
        r == sort_field_of(s@),
{
    if str_eq(s, "created_at") {
        SortField::CreatedAt
    } else if str_eq(s, "id") {
        SortField::Id
    } else if str_eq(s, "file_path") {
        SortField::FilePath
    } else {
        SortField::UpdatedAt
    }
}

/// Whether `s` asks for descending order: anything but `"asc"` does.
pub fn parse_desc(s: &str) -> (r: bool)
    ensures
        r == is_desc(s@),
{
    let c = chars_of(s);
    !(c.len() == 3 && (c[0] == 'a' || c[0] == 'A') && (c[1] == 's' || c[1] == 'S') && (c[2] == 'c'
        || c[2] == 'C'))
}

fn sort_key_exec(r: &DocRecord, id: &String, f: SortField) -> (k: Vec<char>)
    ensures
        k@ == sort_key(r@, id@, f),
{
    match f {
        SortField::CreatedAt => match &r.created_at {
            Some(t) => chars_of(t.as_str()),
            None => Vec::new(),
        },
        SortField::UpdatedAt => match &r.updated_at {
            Some(t) => chars_of(t.as_str()),
            None => Vec::new(),
        },
        SortField::Id => chars_of(id.as_str()),
        SortField::FilePath => {
            let p = match &r.file_path {
                Some(p) => p.clone(),
                None => String::from_str("no-file-path"),
            };
            let l = to_lowercase(p.as_str());
            chars_of(l.as_str())
        },
    }
}

fn before_exec(
    keys: &Vec<Vec<char>>,
    idc: &Vec<Vec<char>>,
    desc: bool,
    x: usize,
    y: usize,
    m: Ghost<Map<Seq<char>, DocRecordView>>,
    f: Ghost<SortField>,
) -> (r: bool)
    requires
        x < keys@.len(),
        y < keys@.len(),
        keys@.len() == idc@.len(),
        forall|i: int| 0 <= i < keys@.len() ==> (#[trigger] keys@[i])@ == sort_key(m@[idc@[i]@], idc@[i]@, f@),
    ensures
        r == before(m@, f@, desc, idc@[x as int]@, idc@[y as int]@),
{
    let (a, b) = if desc { (y, x) } else { (x, y) };
    assert(keys@[a as int]@ == sort_key(m@[idc@[a as int]@], idc@[a as int]@, f@));
    assert(keys@[b as int]@ == sort_key(m@[idc@[b as int]@], idc@[b as int]@, f@));
    chars_lt(&keys[a], &keys[b]) || (chars_eq(&keys[a], &keys[b]) && chars_lt(&idc[a], &idc[b]))
}

/// Positions `0..n` in listing order of their ids.
fn sort_positions(
    keys: &Vec<Vec<char>>,
    idc: &Vec<Vec<char>>,
    desc: bool,
    m: Ghost<Map<Seq<char>, DocRecordView>>,
    f: Ghost<SortField>,
) -> (order: Vec<usize>)
    requires
        keys@.len() == idc@.len(),
        forall|i: int| 0 <= i < keys@.len() ==> (#[trigger] keys@[i])@ == sort_key(m@[idc@[i]@], idc@[i]@, f@),
        forall|i: int, j: int| 0 <= i < idc@.len() && 0 <= j < idc@.len() && i != j ==> idc@[i]@ != idc@[j]@,
    ensures
        order@.len() == idc@.len(),
        order@.no_duplicates(),
        forall|t: int| 0 <= t < order@.len() ==> (#[trigger] order@[t]) < idc@.len(),
        forall|a: int, b: int| 0 <= a < b < order@.len() ==> before(m@, f@, desc, idc@[order@[a] as int]@, idc@[order@[b] as int]@),
{
    let n = idc.len();
    let mut rem: Vec<usize> = Vec::new();
    let mut i: usize = 0;
    while i < n
        invariant
            n == idc@.len(),
            i <= n,
            rem@ == Seq::new(i as nat, |t: int| t as usize),
        decreases n - i,
    {
        rem.push(i);
        i = i + 1;
        assert(rem@ =~= Seq::new(i as nat, |t: int| t as usize));
    }
    let mut order: Vec<usize> = Vec::new();
    assert(rem@.no_duplicates());
    assert forall|x: usize| x < n implies (rem@.contains(x) != order@.contains(x)) by {
        assert(rem@[x as int] == x);
    }
    while rem.len() > 0
        invariant
            n == idc@.len(),
            keys@.len() == n,
            forall|i: int| 0 <= i < keys@.len() ==> (#[trigger] keys@[i])@ == sort_key(m@[idc@[i]@], idc@[i]@, f@),
            forall|i: int, j: int| 0 <= i < n && 0 <= j < n && i != j ==> idc@[i]@ != idc@[j]@,
            rem@.no_duplicates(),
            order@.no_duplicates(),
            forall|t: int| 0 <= t < rem@.len() ==> (#[trigger] rem@[t]) < n,
            forall|t: int| 0 <= t < order@.len() ==> (#[trigger] order@[t]) < n,
            forall|x: usize| x < n ==> (rem@.contains(x) != order@.contains(x)),
            rem@.len() + order@.len() == n,
            forall|a: int, b: int| 0 <= a < b < order@.len() ==> before(m@, f@, desc, idc@[order@[a] as int]@, idc@[order@[b] as int]@),
            forall|a: int, t: int| 0 <= a < order@.len() && 0 <= t < rem@.len() ==> before(m@, f@, desc, idc@[order@[a] as int]@, idc@[rem@[t] as int]@),
        decreases rem.len(),
    {
        let mut bp: usize = 0;
        let mut t: usize = 1;
        proof {
            lemma_before_order(m@, f@, desc, idc@[rem@[0] as int]@, idc@[rem@[0] as int]@, idc@[rem@[0] as int]@);
        }
        while t < rem.len()
            invariant
                n == idc@.len(),
                keys@.len() == n,
                forall|i: int| 0 <= i < keys@.len() ==> (#[trigger] keys@[i])@ == sort_key(m@[idc@[i]@], idc@[i]@, f@),
                forall|t2: int| 0 <= t2 < rem@.len() ==> (#[trigger] rem@[t2]) < n,
                rem@.len() > 0,
                bp < rem@.len(),
                1 <= t <= rem@.len(),
                forall|u: int| 0 <= u < t ==> !before(m@, f@, desc, idc@[rem@[u] as int]@, idc@[rem@[bp as int] as int]@),
            decreases rem.len() - t,
        {
            proof {
                lemma_before_order(m@, f@, desc, idc@[rem@[bp as int] as int]@, idc@[rem@[bp as int] as int]@, idc@[rem@[bp as int] as int]@);
            }
            if before_exec(keys, idc, desc, rem[t], rem[bp], m, f) {
                proof {
                    let nb = idc@[rem@[t as int] as int]@;
                    let ob = idc@[rem@[bp as int] as int]@;
                    assert forall|u: int| 0 <= u < t + 1 implies !before(m@, f@, desc, idc@[rem@[u] as int]@, nb) by {
                        let x = idc@[rem@[u] as int]@;
                        lemma_before_order(m@, f@, desc, x, nb, ob);
                        lemma_before_order(m@, f@, desc, nb, nb, nb);
                    }
                }
                bp = t;
            }
            t = t + 1;
        }
        let b = rem[bp];
        proof {
            let bid = idc@[b as int]@;
            assert forall|u: int| 0 <= u < rem@.len() && u != bp implies before(m@, f@, desc, bid, idc@[rem@[u] as int]@) by {
                assert(rem@[u] != rem@[bp as int]);
                lemma_before_order(m@, f@, desc, bid, idc@[rem@[u] as int]@, bid);
            }
        }
        let ghost old_rem = rem@;
        let ghost old_order = order@;
        rem.remove(bp);
        order.push(b);
        proof {
            assert(old_rem.contains(b));
            assert(!old_order.contains(b));
            assert forall|x: usize| x < n implies (rem@.contains(x) != order@.contains(x)) by {
                if x == b {
                    assert(order@[order@.len() - 1] == b);
                    if rem@.contains(x) {
                        let t2 = choose|t2: int| 0 <= t2 < rem@.len() && rem@[t2] == x;
                        if t2 < bp {
                            assert(old_rem[t2] == x);
                        } else {
                            assert(old_rem[t2 + 1] == x);
                        }
                    }
                } else {
                    if rem@.contains(x) {
                        let t2 = choose|t2: int| 0 <= t2 < rem@.len() && rem@[t2] == x;
                        if t2 < bp {
                            assert(old_rem[t2] == x);
                        } else {
                            assert(old_rem[t2 + 1] == x);
                        }
                    }
                    if old_rem.contains(x) {
                        let t2 = choose|t2: int| 0 <= t2 < old_rem.len() && old_rem[t2] == x;
                        if t2 < bp {
                            assert(rem@[t2] == x);
                        } else {
                            assert(rem@[t2 - 1] == x);
                        }
                    }
                    if order@.contains(x) {
                        let t2 = choose|t2: int| 0 <= t2 < order@.len() && order@[t2] == x;
                        assert(old_order[t2] == x);
                    }
                    if old_order.contains(x) {
                        let t2 = choose|t2: int| 0 <= t2 < old_order.len() && old_order[t2] == x;
                        assert(order@[t2] == x);
                    }
                }
            }
            assert forall|a: int, t2: int| 0 <= a < order@.len() && 0 <= t2 < rem@.len() implies before(m@, f@, desc, idc@[order@[a] as int]@, idc@[rem@[t2] as int]@) by {
                let u = if t2 < bp { t2 } else { t2 + 1 };
                assert(rem@[t2] == old_rem[u]);
                if a < old_order.len() {
                    assert(order@[a] == old_order[a]);
                }
            }
            assert forall|a: int, c: int| 0 <= a < c < order@.len() implies before(m@, f@, desc, idc@[order@[a] as int]@, idc@[order@[c] as int]@) by {
                if c == order@.len() - 1 {
                    assert(order@[a] == old_order[a]);
                    assert(old_rem[bp as int] == b);
                }
            }
            assert forall|i: int, j: int| 0 <= i < order@.len() && 0 <= j < order@.len() && i != j implies order@[i] != order@[j] by {
                if i < old_order.len() && j < old_order.len() {
                } else if i < old_order.len() {
                    assert(old_order.contains(order@[i]));
                } else {
                    assert(old_order.contains(order@[j]));
                }
            }
            assert forall|i: int, j: int| 0 <= i < rem@.len() && 0 <= j < rem@.len() && i != j implies rem@[i] != rem@[j] by {
                let i2 = if i < bp { i } else { i + 1 };
                let j2 = if j < bp { j } else { j + 1 };
                assert(rem@[i] == old_rem[i2] && rem@[j] == old_rem[j2]);
            }
        }
    }
    order
}

impl JsonDocStatusStorage {
    /// One page of the documents with status `status_filter` (all when
    /// `None`), listed by `sort_field` (`created_at`, `updated_at`, `id` or
    /// `file_path`, case-insensitively for the last; any other name means
    /// `updated_at`), ascending when `sort_direction` is `asc` in any case
    /// and descending otherwise, ties broken by id. Pages are numbered from 1
    /// (0 counts as 1) and hold `page_size` clamped into `[10, 200]`
    /// entries. Also returns the number of matching documents.
    pub fn docs_paginated(
        &self,
        status_filter: Option<DocStatus>,
        page: usize,
        page_size: usize,
        sort_field: &str,
        sort_direction: &str,
    ) -> (r: (Vec<(String, DocProcessingStatus)>, usize))
        requires
            self.wf(),
        ensures
            ({
                let ids = filtered(self@, status_filter, None);
                let f = sort_field_of(sort_field@);
                let d = is_desc(sort_direction@);
                let l = listing(ids, self@, f, d);
                let start = page_start(page as nat, page_size as nat);
                &&& sorted_listing(l, ids, self@, f, d)
                &&& r.1 == l.len()
                &&& r.0@.len() == page_len(page as nat, page_size as nat, l.len())
                &&& forall|j: int| 0 <= j < r.0@.len() ==> {
                    &&& (#[trigger] r.0@[j]).0@ == l[start + j]
                    &&& r.0@[j].1@ == status_of(l[start + j], self@[l[start + j]])
                }
            }),
    {
        let ghost ids = filtered(self@, status_filter, None);
        let f = parse_sort_field(sort_field);
        let desc = parse_desc(sort_direction);
        let sel = self.select(status_filter, None);
        let n = sel.len();
        let mut keys: Vec<Vec<char>> = Vec::new();
        let mut idc: Vec<Vec<char>> = Vec::new();
        let mut i: usize = 0;
        while i < n
            invariant
                n == sel@.len(),
                i <= n,
                keys@.len() == i,
                idc@.len() == i,
                forall|j: int| 0 <= j < sel@.len() ==> self@.contains_key((#[trigger] sel@[j]).0@) && sel@[j].1@ == self@[sel@[j].0@],
                forall|j: int| 0 <= j < i ==> (#[trigger] idc@[j])@ == sel@[j].0@,
                forall|j: int| 0 <= j < i ==> (#[trigger] keys@[j])@ == sort_key(self@[idc@[j]@], idc@[j]@, f),
            decreases n - i,
        {
            let k = sort_key_exec(&sel[i].1, &sel[i].0, f);
            keys.push(k);
            idc.push(chars_of(sel[i].0.as_str()));
            i = i + 1;
        }
        let order = sort_positions(&keys, &idc, desc, Ghost(self@), Ghost(f));
        let ghost l = Seq::new(n as nat, |t: int| sel@[order@[t] as int].0@);
        proof {
            assert forall|a: int, b: int| 0 <= a < l.len() && 0 <= b < l.len() && a != b implies l[a] != l[b] by {
                assert(order@[a] != order@[b]);
                assert(idc@[order@[a] as int]@ == sel@[order@[a] as int].0@);
                assert(idc@[order@[b] as int]@ == sel@[order@[b] as int].0@);
            }
            assert forall|k: Seq<char>| ids.contains(k) <==> l.contains(k) by {
                if ids.contains(k) {
                    assert(key_set(sel@).contains(k));
                    let j = choose|j: int| 0 <= j < sel@.len() && sel@[j].0@ == k;
                    let ju = j as usize;
                    lemma_order_covers(order@, n as nat, ju);
                    let t = choose|t: int| 0 <= t < order@.len() && order@[t] == ju;
                    assert(l[t] == k);
                }
                if l.contains(k) {
                    let t = choose|t: int| 0 <= t < l.len() && l[t] == k;
                    assert(has_key(sel@, k)) by {
                        assert(sel@[order@[t] as int].0@ == k);
                    }
                    assert(key_set(sel@).contains(k));
                }
            }
            assert forall|a: int, b: int| 0 <= a < b < l.len() implies before(self@, f, desc, #[trigger] l[a], #[trigger] l[b]) by {
                assert(idc@[order@[a] as int]@ == sel@[order@[a] as int].0@);
                assert(idc@[order@[b] as int]@ == sel@[order@[b] as int].0@);
            }
            assert(sorted_listing(l, ids, self@, f, desc));
            lemma_listing_unique(l, listing(ids, self@, f, desc), ids, self@, f, desc);
        }
        let p: usize = if page < 1 { 1 } else { page };
        let sz: usize = if page_size < 10 { 10 } else if page_size > 200 { 200 } else { page_size };
        let q = p - 1;
        let mut out: Vec<(String, DocProcessingStatus)> = Vec::new();
        if q > n / sz {
            proof {
                assert(q * sz >= n) by (nonlinear_arith)
                    requires q > n / sz, sz > 0;
                assert(page_start(page as nat, page_size as nat) == q * sz);
            }
            return (out, n);
        }
        proof {
            assert(q * sz <= n) by (nonlinear_arith)
                requires q <= n / sz, sz > 0;
        }
        let start = q * sz;
        assert(page_start(page as nat, page_size as nat) == start);
        let end = if sz < n - start { start + sz } else { n };
        let mut j: usize = start;
        while j < end
            invariant
                n == sel@.len(),
                n == order@.len(),
                start <= j <= end <= n,
                forall|t: int| 0 <= t < order@.len() ==> (#[trigger] order@[t]) < n,
                l == Seq::new(n as nat, |t: int| sel@[order@[t] as int].0@),
                forall|t: int| 0 <= t < sel@.len() ==> self@.contains_key((#[trigger] sel@[t]).0@) && sel@[t].1@ == self@[sel@[t].0@],
                out@.len() == j - start,
                forall|t: int| 0 <= t < out@.len() ==> {
                    &&& (#[trigger] out@[t]).0@ == l[start + t]
                    &&& out@[t].1@ == status_of(l[start + t], self@[l[start + t]])
                },
            decreases end - j,
        {
            let o = order[j];
            let st = sel[o].1.to_status(&sel[o].0);
            out.push((sel[o].0.clone(), st));
            j = j + 1;
        }
        (out, n)
    }
}

proof fn lemma_order_covers(order: Seq<usize>, n: nat, x: usize)
    requires
        n <= usize::MAX,
        order.len() == n,
        order.no_duplicates(),
        forall|t: int| 0 <= t < order.len() ==> (#[trigger] order[t]) < n,
        x < n,
    ensures
        order.contains(x),
{
    let s = Set::new(|y: usize| y < n);
    let full = order.to_set();
    assert forall|y: usize| #[trigger] full.contains(y) implies s.contains(y) by {
        let t = choose|t: int| 0 <= t < order.len() && order[t] == y;
    }
    order.unique_seq_to_set();
    lemma_range_set(n);
    if !order.contains(x) {
        assert(full.subset_of(s.remove(x)));
        vstd::set_lib::lemma_len_subset(full, s.remove(x));
    }
}

proof fn lemma_range_set(n: nat)
    requires
        n <= usize::MAX,
    ensures
        Set::new(|y: usize| y < n).finite(),
        Set::new(|y: usize| y < n).len() == n,
    decreases n,
{
    if n == 0 {
        assert(Set::new(|y: usize| y < n) =~= Set::<usize>::empty());
    } else {
        lemma_range_set((n - 1) as nat);
        let m = (n - 1) as usize;
        assert(Set::new(|y: usize| y < n) =~= Set::new(|y: usize| y < (n - 1) as nat).insert(m));
        assert(!Set::new(|y: usize| y < (n - 1) as nat).contains(m));
    }
}

} // verus!
