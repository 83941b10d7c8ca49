//! The arena store: every package name lives in one buffer, one after the
//! other, each followed by a newline; a view is a pair of byte offsets into it.

use vstd::prelude::*;
use vstd::string::StringSliceAdditionalSpecFns;
use vstd::utf8::*;

use crate::package::PackageSource;
use crate::text::{
    chars_of, contains_seq, lemma_scan_no_newline, listed_names, scan_lines, contains_str, lemma_boundary_concat, lemma_encode_concat, lemma_encode_no_newline,
    lower_of, lowercase, push_char, string_from_utf8,
};
use crate::snapshot::{
    get_le, lemma_parse_rejects_view, lemma_snapshot_round_trip, parse_snapshot, Snapshot, put_le, snapshot_bytes, source_tag, view_at, view_ok_at, views_bytes,
    field, CACHE_VERSION, HEADER_LEN, VIEW_LEN,
};

verus! {

broadcast use vstd::utf8::encode_utf8_valid_utf8, vstd::utf8::encode_utf8_decode_utf8;

/// The byte that ends every name in the arena.
pub const DELIMITER: u8 = 10;

/// The UTF-8 bytes of a text.
pub open spec fn bytes_of(s: Seq<char>) -> Seq<u8> {
    encode_utf8(s)
}

/// A view is usable in an arena holding `bytes` when it lies inside it, both
/// ends fall on character boundaries, and it spans no delimiter.
pub open spec fn view_fits(bytes: Seq<u8>, v: PackageView) -> bool {
    &&& v.name_start <= v.name_end <= bytes.len()
    &&& is_char_boundary(bytes, v.name_start as int)
    &&& is_char_boundary(bytes, v.name_end as int)
    &&& !bytes.subrange(v.name_start as int, v.name_end as int).contains(DELIMITER)
}

/// The name a view denotes in an arena holding `bytes`.
pub open spec fn view_name(bytes: Seq<u8>, v: PackageView) -> Seq<char> {
    decode_utf8(bytes.subrange(v.name_start as int, v.name_end as int))
}

/// A lightweight reference to one name inside the arena.
#[derive(Debug, Clone, Copy, PartialEq, Eq, Structural)]
pub struct PackageView {
    /// Offset of the name's first byte.
    pub name_start: usize,
    /// Offset just past the name's last byte.
    pub name_end: usize,
    /// Where the package comes from.
    pub source: PackageSource,
}

impl PackageView {
    /// The name this view denotes in `arena`.
    pub fn name<'a>(&self, arena: &'a str) -> (r: &'a str)
        requires
            self.name_start <= self.name_end <= bytes_of(arena@).len(),
            is_char_boundary(bytes_of(arena@), self.name_start as int),
            is_char_boundary(bytes_of(arena@), self.name_end as int),
        ensures
            bytes_of(r@) == bytes_of(arena@).subrange(self.name_start as int, self.name_end as int),
            r@ == view_name(bytes_of(arena@), *self),
    {
        let ghost bytes = bytes_of(arena@);
        let (_, tail) = arena.split_at(self.name_start);
        proof {
            valid_utf8_split(bytes, self.name_start as int);
            decode_utf8_split(bytes, self.name_start as int);
            assert(is_char_boundary(tail.spec_bytes(), (self.name_end - self.name_start) as int))
                by {
                lemma_suffix_boundary(bytes, self.name_start as int, self.name_end as int);
            }
        }
        let (r, _) = tail.split_at(self.name_end - self.name_start);
        proof {
            assert(r.spec_bytes() =~= bytes.subrange(self.name_start as int, self.name_end as int));
            decode_utf8_encode_utf8(r.spec_bytes());
        }
        r
    }
}

/// A boundary at or after `i` is still one in the suffix that starts at `i`.
proof fn lemma_suffix_boundary(bytes: Seq<u8>, i: int, j: int)
    requires
        valid_utf8(bytes),
        i <= j <= bytes.len(),
        is_char_boundary(bytes, i),
        is_char_boundary(bytes, j),
    ensures
        is_char_boundary(bytes.subrange(i, bytes.len() as int), j - i),
{
    let tail = bytes.subrange(i, bytes.len() as int);
    valid_utf8_split(bytes, i);
    if j == bytes.len() {
        is_char_boundary_start_end_of_seq(tail);
    } else if j == i {
    } else {
        is_char_boundary_iff_is_leading_byte(bytes, j);
        is_char_boundary_iff_is_leading_byte(tail, j - i);
        assert(tail[j - i] == bytes[j]);
    }
}


/// Old views keep fitting, and keep their names, when the arena grows.
proof fn lemma_fits_extend(bytes: Seq<u8>, extra: Seq<u8>, v: PackageView)
    requires
        valid_utf8(bytes),
        valid_utf8(extra),
        view_fits(bytes, v),
    ensures
        view_fits(bytes + extra, v),
        view_name(bytes + extra, v) == view_name(bytes, v),
{
    lemma_boundary_concat(bytes, extra, v.name_start as int);
    lemma_boundary_concat(bytes, extra, v.name_end as int);
    assert((bytes + extra).subrange(v.name_start as int, v.name_end as int) =~= bytes.subrange(
        v.name_start as int,
        v.name_end as int,
    ));
}

proof fn lemma_newline_bytes()
    ensures
        bytes_of(seq!['\n']) == seq![DELIMITER],
{
    assert(('\n' as u32) == 10);
    assert(((10u32 & 0x7f) as u8) == 10u8) by (bit_vector);
    let nl = seq!['\n'];
    assert(nl.drop_first() =~= Seq::<char>::empty());
    assert(nl[0] as u32 == 10);
    assert(encode_scalar(10) == seq![10u8]);
    assert(encode_utf8(nl) == encode_scalar(nl[0] as u32) + encode_utf8(nl.drop_first()));
    assert(encode_utf8(nl) =~= seq![DELIMITER]);
}

proof fn lemma_encode_push(s: Seq<char>, c: char)
    ensures
        bytes_of(s.push(c)).len() == bytes_of(s).len() + bytes_of(seq![c]).len(),
        bytes_of(seq![c]).len() >= 1,
{
    lemma_encode_concat(s, seq![c]);
    assert(s.push(c) =~= s + seq![c]);
    assert(seq![c].drop_first() =~= Seq::<char>::empty());
    vstd::utf8::char_is_scalar(c);
}

/// The names a listing gives; an absent listing gives none.
pub open spec fn listing(t: Option<&str>) -> Seq<Seq<char>> {
    match t {
        Some(x) => listed_names(x@),
        None => seq![],
    }
}

/// Byte length of a listing; an absent listing has none.
pub open spec fn listing_len(t: Option<&str>) -> nat {
    match t {
        Some(x) => bytes_of(x@).len(),
        None => 0,
    }
}

/// What the host does next to obtain a catalog.
pub enum CatalogStep {
    /// The snapshot was usable: here is the store.
    Ready(PackageDatabase),
    /// No usable snapshot: fetch the listings and build afresh.
    Rebuild,
}

/// Whether `b[from..to]` holds a delimiter.
fn holds_delimiter(b: &[u8], from: usize, to: usize) -> (r: bool)
    requires
        from <= to <= b@.len(),
    ensures
        r == b@.subrange(from as int, to as int).contains(DELIMITER),
{
    let mut q: usize = from;
    while q < to
        invariant
            from <= q <= to <= b@.len(),
            forall|j: int| from <= j < q ==> b@[j] != DELIMITER,
        decreases to - q,
    {
        if b[q] == DELIMITER {
            assert(b@.subrange(from as int, to as int)[q - from] == DELIMITER);
            return true;
        }
        q = q + 1;
    }
    assert forall|j: int| 0 <= j < to - from implies b@.subrange(from as int, to as int)[j]
        != DELIMITER by {
        assert(b@[from + j] != DELIMITER);
    }
    false
}

/// A view passes the source filter.
pub open spec fn passes_filter(v: PackageView, filter: Option<PackageSource>) -> bool {
    match filter {
        Some(f) => v.source == f,
        None => true,
    }
}

/// Counters derived from the store, plus how it was obtained.
#[derive(Debug, Clone, Copy, PartialEq, Eq, Structural)]
pub struct DatabaseStats {
    /// Names from the official repositories.
    pub official_count: usize,
    /// Names from the community repository.
    pub aur_count: usize,
    /// Size of the arena in bytes.
    pub arena_bytes: usize,
    /// How long loading or building took, in milliseconds.
    pub load_time_ms: u64,
    /// Whether the store came from the snapshot rather than a rebuild.
    pub was_cached: bool,
}

impl Default for DatabaseStats {
    fn default() -> (r: Self)
        ensures
            r == (DatabaseStats {
                official_count: 0,
                aur_count: 0,
                arena_bytes: 0,
                load_time_ms: 0,
                was_cached: false,
            }),
    {
        DatabaseStats {
            official_count: 0,
            aur_count: 0,
            arena_bytes: 0,
            load_time_ms: 0,
            was_cached: false,
        }
    }
}

/// The package catalog: one arena of names and the ordered views into it.
#[derive(Debug)]
pub struct PackageDatabase {
    arena: String,
    packages: Vec<PackageView>,
    /// Counters describing the store.
    pub stats: DatabaseStats,
}

impl Default for PackageDatabase {
    fn default() -> (r: Self)
        ensures
            r.views().len() == 0,
            r.text().len() == 0,
            r.well_formed(),
    {
        PackageDatabase::new()
    }
}

impl PackageDatabase {
    /// The characters held by the arena.
    pub closed spec fn text(&self) -> Seq<char> {
        self.arena@
    }

    /// The views, in insertion order.
    pub closed spec fn views(&self) -> Seq<PackageView> {
        self.packages@
    }

    /// The counters.
    pub closed spec fn counters(&self) -> DatabaseStats {
        self.stats
    }

    /// The bytes held by the arena.
    pub open spec fn arena_bytes(&self) -> Seq<u8> {
        bytes_of(self.text())
    }

    /// The name that view `i` denotes.
    pub open spec fn name_at(&self, i: int) -> Seq<char> {
        view_name(self.arena_bytes(), self.views()[i])
    }

    /// Every view lies inside the arena, on character boundaries, and spans
    /// no delimiter.
    pub open spec fn well_formed(&self) -> bool {
        forall|i: int|
            0 <= i < self.views().len() ==> view_fits(self.arena_bytes(), #[trigger] self.views()[i])
    }

    /// View `i` passes the filter and its case-folded name contains the
    /// case-folded query `folded`.
    pub open spec fn hit(&self, i: int, folded: Seq<char>, filter: Option<PackageSource>) -> bool {
        passes_filter(self.views()[i], filter) && contains_seq(lower_of(self.name_at(i)), folded)
    }

    /// Indices below `n` that are hits, in scan order.
    pub open spec fn hits_before(
        &self,
        n: int,
        folded: Seq<char>,
        filter: Option<PackageSource>,
    ) -> Seq<usize>
        decreases n,
    {
        if n <= 0 {
            seq![]
        } else if self.hit(n - 1, folded, filter) {
            self.hits_before(n - 1, folded, filter).push((n - 1) as usize)
        } else {
            self.hits_before(n - 1, folded, filter)
        }
    }

    /// The first `limit` hits in scan order.
    pub open spec fn first_hits(
        &self,
        folded: Seq<char>,
        filter: Option<PackageSource>,
        limit: usize,
    ) -> Seq<usize> {
        let all = self.hits_before(self.views().len() as int, folded, filter);
        if all.len() <= limit {
            all
        } else {
            all.take(limit as int)
        }
    }

    /// The hits found before `m` are a prefix of those found before `n`.
    pub proof fn lemma_hits_prefix(
        &self,
        m: int,
        n: int,
        folded: Seq<char>,
        filter: Option<PackageSource>,
    )
        requires
            0 <= m <= n,
        ensures
            self.hits_before(m, folded, filter).len() <= self.hits_before(n, folded, filter).len(),
            self.hits_before(n, folded, filter).take(
                self.hits_before(m, folded, filter).len() as int,
            ) == self.hits_before(m, folded, filter),
        decreases n - m,
    {
        if m < n {
            self.lemma_hits_prefix(m, n - 1, folded, filter);
            let a = self.hits_before(m, folded, filter);
            let b = self.hits_before(n - 1, folded, filter);
            assert(self.hits_before(n, folded, filter).take(a.len() as int) =~= b.take(
                a.len() as int,
            ));
        } else {
            assert(self.hits_before(n, folded, filter).take(
                self.hits_before(n, folded, filter).len() as int,
            ) =~= self.hits_before(n, folded, filter));
        }
    }

    proof fn lemma_hits_before_facts(
        &self,
        n: int,
        folded: Seq<char>,
        filter: Option<PackageSource>,
    )
        requires
            0 <= n <= self.views().len() <= usize::MAX,
        ensures
            forall|k: int|
                0 <= k < self.hits_before(n, folded, filter).len() ==> {
                    let i = #[trigger] self.hits_before(n, folded, filter)[k] as int;
                    0 <= i < n && self.hit(i, folded, filter)
                },
            forall|k1: int, k2: int|
                0 <= k1 < k2 < self.hits_before(n, folded, filter).len() ==> #[trigger] self.hits_before(
                    n,
                    folded,
                    filter,
                )[k1] < #[trigger] self.hits_before(n, folded, filter)[k2],
            forall|i: int|
                0 <= i < n && #[trigger] self.hit(i, folded, filter) ==> self.hits_before(
                    n,
                    folded,
                    filter,
                ).contains(i as usize),
        decreases n,
    {
        if n > 0 {
            self.lemma_hits_before_facts(n - 1, folded, filter);
            let prev = self.hits_before(n - 1, folded, filter);
            let cur = self.hits_before(n, folded, filter);
            assert forall|k: int| 0 <= k < prev.len() implies cur[k] == prev[k] by {}
            assert forall|k: int| 0 <= k < cur.len() implies {
                let i = #[trigger] cur[k] as int;
                0 <= i < n && self.hit(i, folded, filter)
            } by {
                if k < prev.len() {
                    assert(cur[k] == prev[k]);
                }
            }
            assert forall|k1: int, k2: int| 0 <= k1 < k2 < cur.len() implies #[trigger] cur[k1]
                < #[trigger] cur[k2] by {
                assert(cur[k1] == prev[k1]);
                if k2 < prev.len() {
                    assert(cur[k2] == prev[k2]);
                } else {
                    assert(prev[k1] < n - 1);
                }
            }
            assert forall|i: int| 0 <= i < n && #[trigger] self.hit(i, folded, filter) implies cur.contains(
                i as usize,
            ) by {
                if i < n - 1 {
                    let k = choose|k: int| 0 <= k < prev.len() && prev[k] == i as usize;
                    assert(cur[k] == prev[k]);
                } else {
                    assert(cur[cur.len() - 1] == (n - 1) as usize);
                }
            }
        }
    }

    /// What a search returns: at most `limit` indices, in increasing scan
    /// order, each naming a hit; and no hit is skipped before the cutoff:
    /// every hit is returned when fewer than `limit` came back, and every
    /// hit up to the last one returned otherwise.
    pub proof fn lemma_search_laws(
        &self,
        folded: Seq<char>,
        filter: Option<PackageSource>,
        limit: usize,
    )
        requires
            self.views().len() <= usize::MAX,
        ensures
            ({
                let r = self.first_hits(folded, filter, limit);
                &&& r.len() <= limit
                &&& forall|k: int|
                    0 <= k < r.len() ==> 0 <= #[trigger] r[k] < self.views().len() && self.hit(
                        r[k] as int,
                        folded,
                        filter,
                    )
                &&& forall|k1: int, k2: int| 0 <= k1 < k2 < r.len() ==> #[trigger] r[k1] < #[trigger] r[k2]
                &&& forall|i: int|
                    0 <= i < self.views().len() && #[trigger] self.hit(i, folded, filter) && (r.len()
                        < limit || (r.len() > 0 && i <= r[r.len() - 1])) ==> r.contains(i as usize)
            }),
    {
        let n = self.views().len() as int;
        self.lemma_hits_before_facts(n, folded, filter);
        let all = self.hits_before(n, folded, filter);
        let r = self.first_hits(folded, filter, limit);
        if all.len() > limit {
            assert forall|k: int| 0 <= k < r.len() implies 0 <= #[trigger] r[k] < self.views().len()
                && self.hit(r[k] as int, folded, filter) by {
                assert(r[k] == all[k]);
            }
            assert forall|k1: int, k2: int| 0 <= k1 < k2 < r.len() implies #[trigger] r[k1] < #[trigger] r[k2] by {
                assert(r[k1] == all[k1] && r[k2] == all[k2]);
            }
            assert forall|i: int|
                0 <= i < self.views().len() && #[trigger] self.hit(i, folded, filter) && (r.len()
                    < limit || (r.len() > 0 && i <= r[r.len() - 1])) implies r.contains(i as usize) by {
                assert(all.contains(i as usize));
                let k = choose|k: int| 0 <= k < all.len() && all[k] == i as usize;
                assert(r.len() == limit);
                if k >= limit {
                    assert(r[limit - 1] == all[limit - 1]);
                    assert(all[limit - 1] < all[k]);
                } else {
                    assert(r[k] == all[k]);
                }
            }
        }
    }

    /// An empty store.
    pub fn new() -> (r: Self)
        ensures
            r.views().len() == 0,
            r.text().len() == 0,
            r.counters() == (DatabaseStats {
                official_count: 0,
                aur_count: 0,
                arena_bytes: 0,
                load_time_ms: 0,
                was_cached: false,
            }),
            r.well_formed(),
    {
        PackageDatabase { arena: String::new(), packages: Vec::new(), stats: DatabaseStats::default() }
    }

    /// Appends one name: its bytes and a delimiter go to the end of the
    /// arena, and a view of them to the end of the views.
    pub fn append(&mut self, name: &str, source: PackageSource)
        requires
            old(self).well_formed(),
            !name@.contains('\n'),
            old(self).arena_bytes().len() + bytes_of(name@).len() + 1 <= usize::MAX,
        ensures
            final(self).text() == old(self).text() + name@ + seq!['\n'],
            final(self).views() == old(self).views().push(
                PackageView {
                    name_start: old(self).arena_bytes().len() as usize,
                    name_end: (old(self).arena_bytes().len() + bytes_of(name@).len()) as usize,
                    source,
                },
            ),
            final(self).name_at(old(self).views().len() as int) == name@,
            final(self).arena_bytes().len() == old(self).arena_bytes().len() + bytes_of(name@).len()
                + 1,
            forall|i: int|
                0 <= i < old(self).views().len() ==> #[trigger] final(self).name_at(i) == old(
                    self,
                ).name_at(i),
            final(self).counters() == old(self).counters(),
            final(self).well_formed(),
    {
        let ghost old_text = self.arena@;
        let ghost b0 = bytes_of(old_text);
        let ghost bn = bytes_of(name@);
        let ghost b1 = b0 + bn;
        let ghost b2 = b1 + seq![DELIMITER];
        proof {
            lemma_encode_concat(old_text, name@);
            lemma_encode_concat(old_text + name@, seq!['\n']);
            lemma_newline_bytes();
            assert(forall|i: int|
                0 <= i < self.packages@.len() ==> view_fits(b2, #[trigger] self.packages@[i])
                    && view_name(b2, self.packages@[i]) == view_name(b0, self.packages@[i])) by {
                assert forall|i: int| 0 <= i < self.packages@.len() implies view_fits(
                    b2,
                    #[trigger] self.packages@[i],
                ) && view_name(b2, self.packages@[i]) == view_name(b0, self.packages@[i]) by {
                    let v = self.packages@[i];
                    lemma_fits_extend(b0, bn, v);
                    lemma_fits_extend(b1, seq![DELIMITER], v);
                }
            }
        }
        let start = self.arena.as_str().as_bytes().len();
        self.arena.append(name);
        let end = self.arena.as_str().as_bytes().len();
        push_char(&mut self.arena, '\n');
        let view = PackageView { name_start: start, name_end: end, source };
        proof {
            assert(self.arena@ == old_text + name@ + seq!['\n']);
            assert(bytes_of(self.arena@) == b2);
            is_char_boundary_start_end_of_seq(b0);
            is_char_boundary_start_end_of_seq(b1);
            lemma_boundary_concat(b0, bn, b0.len() as int);
            lemma_boundary_concat(b1, seq![DELIMITER], b0.len() as int);
            lemma_boundary_concat(b1, seq![DELIMITER], b1.len() as int);
            assert(b2.subrange(start as int, end as int) =~= bn);
            lemma_encode_no_newline(name@);
        }
        self.packages.push(view);
    }

    /// Appends every name that `text` lists, each tagged with `source`, and
    /// returns how many there were.
    fn add_listing(&mut self, text: &str, source: PackageSource) -> (count: usize)
        requires
            old(self).well_formed(),
            old(self).arena_bytes().len() + bytes_of(text@).len() + 1 <= usize::MAX,
        ensures
            final(self).well_formed(),
            count == listed_names(text@).len(),
            final(self).views().len() == old(self).views().len() + count,
            forall|i: int|
                0 <= i < old(self).views().len() ==> #[trigger] final(self).name_at(i) == old(
                    self,
                ).name_at(i),
            forall|i: int|
                0 <= i < old(self).views().len() ==> #[trigger] final(self).views()[i] == old(
                    self,
                ).views()[i],
            forall|j: int|
                0 <= j < count ==> #[trigger] final(self).name_at(old(self).views().len() + j)
                    == listed_names(text@)[j],
            forall|j: int|
                0 <= j < count ==> #[trigger] final(self).views()[old(self).views().len()
                    + j].source == source,
            final(self).arena_bytes().len() <= old(self).arena_bytes().len() + bytes_of(text@).len()
                + 1,
            final(self).counters() == old(self).counters(),
    {
        let ghost s = text@;
        let ghost old_db = *self;
        let ghost n0 = self.views().len() as int;
        let ghost b0 = self.arena_bytes().len();
        let chars = chars_of(text);
        let mut cur = String::new();
        let mut count: usize = 0;
        let mut k: usize = 0;
        while k < chars.len()
            invariant
                chars@ == s,
                k <= s.len(),
                self.well_formed(),
                cur@ == scan_lines(s, k as int).1,
                count == scan_lines(s, k as int).0.len(),
                count + cur@.len() <= k,
                n0 == old_db.views().len(),
                self.views().len() == n0 + count,
                forall|i: int| 0 <= i < n0 ==> #[trigger] self.name_at(i) == old_db.name_at(i),
                forall|i: int| 0 <= i < n0 ==> #[trigger] self.views()[i] == old_db.views()[i],
                forall|j: int|
                    0 <= j < count ==> #[trigger] self.name_at(n0 + j) == scan_lines(
                        s,
                        k as int,
                    ).0[j],
                forall|j: int| 0 <= j < count ==> #[trigger] self.views()[n0 + j].source == source,
                self.arena_bytes().len() + bytes_of(cur@).len() <= b0 + bytes_of(
                    s.take(k as int),
                ).len(),
                b0 + bytes_of(s).len() + 1 <= usize::MAX,
                self.counters() == old_db.counters(),
            decreases s.len() - k,
        {
            let c = chars[k];
            let ghost prev = scan_lines(s, k as int);
            proof {
                assert(scan_lines(s, k + 1) == if c == '\n' {
                    (if prev.1.len() > 0 { prev.0.push(prev.1) } else { prev.0 }, Seq::<char>::empty())
                } else if c == '\r' && k + 1 < s.len() && s[k + 1] == '\n' {
                    prev
                } else {
                    (prev.0, prev.1.push(c))
                });
                lemma_scan_no_newline(s, k as int);
                lemma_encode_push(s.take(k as int), c);
                assert(s.take(k + 1) =~= s.take(k as int).push(c));
                lemma_encode_concat(s.take(k + 1), s.skip(k + 1));
                assert(s =~= s.take(k + 1) + s.skip(k + 1));
            }
            if c == '\n' {
                if !cur.as_str().is_empty() {
                    let ghost before = *self;
                    self.append(cur.as_str(), source);
                    count = count + 1;
                    proof {
                        assert forall|i: int| 0 <= i < n0 implies #[trigger] self.name_at(i)
                            == old_db.name_at(i) by {
                            assert(self.name_at(i) == before.name_at(i));
                        }
                        assert forall|i: int| 0 <= i < n0 implies #[trigger] self.views()[i]
                            == old_db.views()[i] by {
                            assert(self.views()[i] == before.views()[i]);
                        }
                        assert forall|j: int| 0 <= j < count implies #[trigger] self.views()[n0
                            + j].source == source by {
                            if j < count - 1 {
                                assert(self.views()[n0 + j] == before.views()[n0 + j]);
                            }
                        }
                        assert forall|j: int| 0 <= j < count implies #[trigger] self.name_at(
                            n0 + j,
                        ) == scan_lines(s, k + 1).0[j] by {
                            if j < count - 1 {
                                assert(self.name_at(n0 + j) == before.name_at(n0 + j));
                            }
                        }
                    }
                } else {
                    proof {
                        assert(scan_lines(s, k + 1).0 == prev.0);
                        assert forall|j: int| 0 <= j < count implies #[trigger] self.name_at(n0 + j)
                            == scan_lines(s, k + 1).0[j] by {
                            assert(self.name_at(n0 + j) == prev.0[j]);
                        }
                    }
                }
                cur = String::new();
            } else if c == '\r' && k + 1 < chars.len() && chars[k + 1] == '\n' {
                proof {
                    assert(scan_lines(s, k + 1).0 == prev.0);
                    assert forall|j: int| 0 <= j < count implies #[trigger] self.name_at(n0 + j)
                        == scan_lines(s, k + 1).0[j] by {
                        assert(self.name_at(n0 + j) == prev.0[j]);
                    }
                }
            } else {
                proof {
                    lemma_encode_push(cur@, c);
                }
                push_char(&mut cur, c);
                proof {
                    assert(scan_lines(s, k + 1).0 == prev.0);
                    assert forall|j: int| 0 <= j < count implies #[trigger] self.name_at(n0 + j)
                        == scan_lines(s, k + 1).0[j] by {
                        assert(self.name_at(n0 + j) == prev.0[j]);
                    }
                }
            }
            k = k + 1;
        }
        proof {
            assert(s.take(s.len() as int) =~= s);
            lemma_scan_no_newline(s, s.len() as int);
        }
        if !cur.as_str().is_empty() {
            let ghost before = *self;
            self.append(cur.as_str(), source);
            count = count + 1;
            proof {
                assert forall|i: int| 0 <= i < n0 implies #[trigger] self.name_at(i)
                    == old_db.name_at(i) by {
                    assert(self.name_at(i) == before.name_at(i));
                }
                assert forall|i: int| 0 <= i < n0 implies #[trigger] self.views()[i]
                    == old_db.views()[i] by {
                    assert(self.views()[i] == before.views()[i]);
                }
                assert forall|j: int| 0 <= j < count implies #[trigger] self.views()[n0
                    + j].source == source by {
                    if j < count - 1 {
                        assert(self.views()[n0 + j] == before.views()[n0 + j]);
                    }
                }
                assert forall|j: int| 0 <= j < count implies #[trigger] self.name_at(n0 + j)
                    == listed_names(s)[j] by {
                    if j < count - 1 {
                        assert(self.name_at(n0 + j) == before.name_at(n0 + j));
                    }
                }
            }
        }
        count
    }

    /// The store holds what the snapshot `s` describes.
    pub open spec fn holds_snapshot(&self, s: Snapshot) -> bool {
        &&& self.well_formed()
        &&& self.arena_bytes() == s.arena
        &&& self.views() == s.views
        &&& self.counters() == (DatabaseStats {
            official_count: s.official_count as usize,
            aur_count: s.aur_count as usize,
            arena_bytes: s.arena.len() as usize,
            load_time_ms: 0,
            was_cached: true,
        })
    }

    /// Builds a store from the official listing and then the community one,
    /// each name tagged by the listing it came from; an absent listing adds
    /// nothing.
    pub fn build_fresh(official: Option<&str>, aur: Option<&str>) -> (r: Self)
        requires
            listing_len(official) + listing_len(aur) + 2 <= usize::MAX,
        ensures
            r.well_formed(),
            r.views().len() == listing(official).len() + listing(aur).len(),
            forall|i: int|
                0 <= i < listing(official).len() ==> #[trigger] r.name_at(i) == listing(
                    official,
                )[i],
            forall|i: int|
                0 <= i < listing(official).len() ==> #[trigger] r.views()[i].source
                    == PackageSource::Official,
            forall|j: int|
                0 <= j < listing(aur).len() ==> #[trigger] r.name_at(listing(official).len() + j)
                    == listing(aur)[j] && r.views()[listing(official).len() + j].source
                    == PackageSource::Aur,
            r.counters() == (DatabaseStats {
                official_count: listing(official).len() as usize,
                aur_count: listing(aur).len() as usize,
                arena_bytes: r.arena_bytes().len() as usize,
                load_time_ms: 0,
                was_cached: false,
            }),
    {
        let mut db = PackageDatabase::new();
        let mut official_count: usize = 0;
        let mut aur_count: usize = 0;
        match official {
            Some(t) => {
                official_count = db.add_listing(t, PackageSource::Official);
                proof {
                    assert forall|i: int| 0 <= i < listing(official).len() implies #[trigger] db.name_at(
                        i,
                    ) == listing(official)[i] && db.views()[i].source == PackageSource::Official by {
                        assert(db.name_at(0 + i) == listed_names(t@)[i]);
                        assert(db.views()[0 + i].source == PackageSource::Official);
                    }
                }
            },
            None => {},
        }
        let ghost mid = db;
        let ghost n1 = db.views().len();
        assert(n1 == listing(official).len());
        match aur {
            Some(t) => {
                aur_count = db.add_listing(t, PackageSource::Aur);
                proof {
                    assert forall|j: int| 0 <= j < listing(aur).len() implies #[trigger] db.name_at(
                        n1 + j,
                    ) == listing(aur)[j] && db.views()[n1 + j].source == PackageSource::Aur by {
                        assert(db.name_at(mid.views().len() + j) == listed_names(t@)[j]);
                        assert(db.views()[mid.views().len() + j].source == PackageSource::Aur);
                    }
                }
            },
            None => {},
        }
        proof {
            assert forall|i: int| 0 <= i < listing(official).len() implies #[trigger] db.name_at(i)
                == listing(official)[i] && db.views()[i].source == PackageSource::Official by {
                assert(db.name_at(i) == mid.name_at(i));
                assert(db.views()[i] == mid.views()[i]);
            }
        }
        let arena_bytes = db.arena.as_str().as_bytes().len();
        let ghost filled = db;
        db.stats = DatabaseStats {
            official_count,
            aur_count,
            arena_bytes,
            load_time_ms: 0,
            was_cached: false,
        };
        proof {
            assert(db.views() == filled.views() && db.text() == filled.text());
            assert forall|i: int| 0 <= i < db.views().len() implies #[trigger] db.name_at(i)
                == filled.name_at(i) by {}
            assert forall|i: int| 0 <= i < listing(official).len() implies #[trigger] db.name_at(i)
                == listing(official)[i] by {
                assert(filled.name_at(i) == listing(official)[i]);
            }
            assert forall|i: int| 0 <= i < listing(official).len() implies #[trigger] db.views()[i].source
                == PackageSource::Official by {
                assert(filled.name_at(i) == listing(official)[i]);
            }
        }
        db
    }

    /// Looks at the snapshot, if any: a usable one gives the store, anything
    /// else asks for a rebuild.
    pub fn load_or_build(snapshot: Option<&[u8]>) -> (r: CatalogStep)
        ensures
            snapshot is None ==> r is Rebuild,
            snapshot matches Some(b) ==> match parse_snapshot(b@) {
                None => r is Rebuild,
                Some(s) => r matches CatalogStep::Ready(db) && db.holds_snapshot(s),
            },
    {
        match snapshot {
            None => CatalogStep::Rebuild,
            Some(b) => match Self::from_snapshot(b) {
                Some(db) => CatalogStep::Ready(db),
                None => CatalogStep::Rebuild,
            },
        }
    }

    /// Saving a store and reading the bytes back gives a store with the same
    /// counts, the same arena bytes and the same views (so the same names
    /// and sources at every index), marked as coming from the snapshot.
    pub proof fn lemma_save_then_load(&self, timestamp: u64)
        requires
            self.well_formed(),
            snapshot_bytes(
                self.counters().official_count as nat,
                self.counters().aur_count as nat,
                timestamp as nat,
                self.arena_bytes(),
                self.views(),
            ).len() <= usize::MAX,
        ensures
            ({
                let b = snapshot_bytes(
                    self.counters().official_count as nat,
                    self.counters().aur_count as nat,
                    timestamp as nat,
                    self.arena_bytes(),
                    self.views(),
                );
                parse_snapshot(b) matches Some(s) && s.official_count
                    == self.counters().official_count && s.aur_count == self.counters().aur_count
                    && s.arena == self.arena_bytes() && s.views == self.views()
                    && forall|db: PackageDatabase| #[trigger] db.holds_snapshot(s) ==> {
                    &&& db.counters().official_count == self.counters().official_count
                    &&& db.counters().aur_count == self.counters().aur_count
                    &&& db.counters().was_cached
                    &&& db.arena_bytes() == self.arena_bytes()
                    &&& db.views() == self.views()
                    &&& forall|i: int| 0 <= i < self.views().len() ==> #[trigger] db.name_at(i) == self.name_at(i)
                }
            }),
    {
        lemma_snapshot_round_trip(
            self.counters().official_count,
            self.counters().aur_count,
            timestamp,
            self.arena_bytes(),
            self.views(),
        );
    }

    /// The snapshot of this store, stamped with `timestamp`.
    pub fn to_snapshot(&self, timestamp: u64) -> (r: Vec<u8>)
        ensures
            r@ == snapshot_bytes(
                self.counters().official_count as nat,
                self.counters().aur_count as nat,
                timestamp as nat,
                self.arena_bytes(),
                self.views(),
            ),
    {
        let bytes = self.arena.as_str().as_bytes();
        let alen = bytes.len() as u64;
        let mut out: Vec<u8> = Vec::new();
        put_le(&mut out, CACHE_VERSION as u64, 4);
        put_le(&mut out, self.stats.official_count as u64, 8);
        put_le(&mut out, self.stats.aur_count as u64, 8);
        put_le(&mut out, alen, 8);
        put_le(&mut out, timestamp, 8);
        put_le(&mut out, alen, 8);
        let ghost header = out@;
        out.extend_from_slice(bytes);
        assert(out@ =~= header + self.arena_bytes());
        put_le(&mut out, self.packages.len() as u64, 8);
        let ghost prefix = out@;
        let mut i: usize = 0;
        while i < self.packages.len()
            invariant
                i <= self.packages@.len(),
                out@ == prefix + views_bytes(self.packages@.take(i as int)),
            decreases self.packages@.len() - i,
        {
            let v = self.packages[i];
            let tag: u64 = match v.source {
                PackageSource::Official => 0,
                PackageSource::Aur => 1,
            };
            put_le(&mut out, v.name_start as u64, 8);
            put_le(&mut out, v.name_end as u64, 8);
            put_le(&mut out, tag, 4);
            proof {
                let t = self.packages@.take(i + 1);
                assert(t.drop_last() =~= self.packages@.take(i as int));
                assert(t.last() == v);
                assert(tag == source_tag(v.source));
            }
            i = i + 1;
        }
        assert(self.packages@.take(self.packages@.len() as int) =~= self.packages@);
        out
    }

    /// Reads a store back from a snapshot. A snapshot that is short, of
    /// another version, inconsistent, or holds a view that does not fit its
    /// arena gives nothing.
    pub fn from_snapshot(bytes: &[u8]) -> (r: Option<Self>)
        ensures
            parse_snapshot(bytes@) is None ==> r is None,
            parse_snapshot(bytes@) matches Some(s) ==> (r matches Some(db) && db.holds_snapshot(s)),
    {
        let ghost b = bytes@;
        let len = bytes.len();
        if len < HEADER_LEN {
            return None;
        }
        if get_le(bytes, 0, 4) != CACHE_VERSION as u64 {
            return None;
        }
        let official = get_le(bytes, 4, 8);
        let aur = get_le(bytes, 12, 8);
        let alen = get_le(bytes, 20, 8);
        if get_le(bytes, 36, 8) != alen {
            return None;
        }
        if len < HEADER_LEN + 8 || alen > (len - HEADER_LEN - 8) as u64 {
            return None;
        }
        let a = alen as usize;
        let nv = get_le(bytes, HEADER_LEN + a, 8);
        let vstart = HEADER_LEN + a + 8;
        let rest = len - vstart;
        if rest % VIEW_LEN != 0 || (rest / VIEW_LEN) as u64 != nv {
            return None;
        }
        let n = rest / VIEW_LEN;
        let ghost alen_s: nat = field(b, 20, 8);
        let ghost arena_s = b.subrange(HEADER_LEN as int, HEADER_LEN + alen_s);
        let ghost vstart_s: int = HEADER_LEN + alen_s + 8;
        proof {
            assert(b.len() == vstart + VIEW_LEN * nv);
            assert(alen_s == alen);
            assert(vstart_s == vstart);
        }
        if official > usize::MAX as u64 || aur > usize::MAX as u64 {
            return None;
        }
        let arena_bytes = vstd::slice::slice_to_vec(&bytes[HEADER_LEN..HEADER_LEN + a]);
        assert(arena_bytes@ =~= arena_s);
        let arena = match string_from_utf8(arena_bytes) {
            Some(s) => s,
            None => {
                return None;
            },
        };
        let mut packages: Vec<PackageView> = Vec::new();
        let mut i: usize = 0;
        while i < n
            invariant
                b == bytes@,
                len == b.len(),
                i <= n,
                n == nv,
                nv == field(b, HEADER_LEN + alen_s, 8),
                vstart == vstart_s,
                vstart_s == HEADER_LEN + alen_s + 8,
                alen_s == field(b, 20, 8),
                a == alen_s,
                alen == alen_s,
                b.len() == vstart + VIEW_LEN * n,
                arena_s == b.subrange(HEADER_LEN as int, HEADER_LEN + alen_s),
                bytes_of(arena@) == arena_s,
                packages@ == Seq::new(i as nat, |k: int| view_at(b, vstart_s + VIEW_LEN * k)),
                forall|k: int|
                    0 <= k < i ==> #[trigger] view_ok_at(b, vstart_s + VIEW_LEN * k, arena_s),
            decreases n - i,
        {
            let p = vstart + VIEW_LEN * i;
            let start = get_le(bytes, p, 8);
            let end = get_le(bytes, p + 8, 8);
            let tag = get_le(bytes, p + 16, 4);
            if tag > 1 || start > end || end > alen {
                proof {
                    lemma_parse_rejects_view(b, i as int);
                }
                return None;
            }
            let s = start as usize;
            let e = end as usize;
            proof {
                assert(view_at(b, p as int).name_start == s);
                assert(view_at(b, p as int).name_end == e);
            }
            let text = arena.as_str();
            if !text.is_char_boundary(s) || !text.is_char_boundary(e) {
                proof {
                    lemma_parse_rejects_view(b, i as int);
                }
                return None;
            }
            if holds_delimiter(bytes, HEADER_LEN + s, HEADER_LEN + e) {
                proof {
                    assert(arena_s.subrange(s as int, e as int) =~= b.subrange(
                        HEADER_LEN + s,
                        HEADER_LEN + e,
                    ));
                    lemma_parse_rejects_view(b, i as int);
                }
                return None;
            }
            let source = if tag == 0 {
                PackageSource::Official
            } else {
                PackageSource::Aur
            };
            let v = PackageView { name_start: s, name_end: e, source };
            proof {
                assert(v == view_at(b, p as int));
                assert(arena_s.subrange(s as int, e as int) =~= b.subrange(
                    HEADER_LEN + s,
                    HEADER_LEN + e,
                ));
                assert(view_ok_at(b, p as int, arena_s));
            }
            packages.push(v);
            proof {
                assert(packages@ =~= Seq::new(
                    (i + 1) as nat,
                    |k: int| view_at(b, vstart_s + VIEW_LEN * k),
                ));
            }
            i = i + 1;
        }
        let arena_len = arena.as_str().as_bytes().len();
        proof {
            assert(field(b, 0, 4) == CACHE_VERSION as nat);
            assert(field(b, 36, 8) == alen_s);
            assert(valid_utf8(arena_s));
            assert(field(b, 4, 8) == official);
            assert(field(b, 12, 8) == aur);
            assert(b.len() == vstart_s + VIEW_LEN * nv);
            assert(packages@ == Seq::new(nv as nat, |k: int| view_at(b, vstart_s + VIEW_LEN * k)));
            assert forall|k: int| 0 <= k < packages@.len() implies view_fits(
                arena_s,
                #[trigger] packages@[k],
            ) by {
                assert(view_ok_at(b, vstart_s + VIEW_LEN * k, arena_s));
            }
        }
        Some(
            PackageDatabase {
                arena,
                packages,
                stats: DatabaseStats {
                    official_count: official as usize,
                    aur_count: aur as usize,
                    arena_bytes: arena_len,
                    load_time_ms: 0,
                    was_cached: true,
                },
            },
        )
    }

    /// Number of names in the store.
    pub fn len(&self) -> (r: usize)
        ensures
            r == self.views().len(),
    {
        self.packages.len()
    }

    /// Whether the store holds no name.
    pub fn is_empty(&self) -> (r: bool)
        ensures
            r == (self.views().len() == 0),
    {
        self.packages.len() == 0
    }

    /// The name at `idx`, if there is one.
    pub fn get_name(&self, idx: usize) -> (r: Option<&str>)
        requires
            self.well_formed(),
        ensures
            idx < self.views().len() ==> (r matches Some(n) && n@ == self.name_at(idx as int)),
            idx >= self.views().len() ==> r is None,
    {
        if idx < self.packages.len() {
            let v = self.packages[idx];
            Some(v.name(self.arena.as_str()))
        } else {
            None
        }
    }

    /// The source of the name at `idx`, if there is one.
    pub fn get_source(&self, idx: usize) -> (r: Option<PackageSource>)
        ensures
            idx < self.views().len() ==> r == Some(self.views()[idx as int].source),
            idx >= self.views().len() ==> r is None,
    {
        if idx < self.packages.len() {
            Some(self.packages[idx].source)
        } else {
            None
        }
    }

    /// Indices of the first `limit` names, in scan order, that pass `filter`
    /// and whose case-folded form contains `query` case-folded. An empty
    /// query finds nothing.
    pub fn search(&self, query: &str, source_filter: Option<PackageSource>, limit: usize) -> (r: Vec<
        usize,
    >)
        requires
            self.well_formed(),
        ensures
            query@.len() == 0 ==> r@ == Seq::<usize>::empty(),
            query@.len() > 0 ==> r@ == self.first_hits(lower_of(query@), source_filter, limit),
    {
        if query.is_empty() {
            return Vec::new();
        }
        let folded = lowercase(query);
        self.search_folded(folded.as_str(), source_filter, limit)
    }

    /// Indices of the first `limit` names, in scan order, that pass `filter`
    /// and whose case-folded form contains `folded`, a query that is already
    /// case-folded.
    pub fn search_folded(
        &self,
        folded: &str,
        source_filter: Option<PackageSource>,
        limit: usize,
    ) -> (r: Vec<usize>)
        requires
            self.well_formed(),
        ensures
            r@ == self.first_hits(folded@, source_filter, limit),
    {
        let ghost n = self.views().len() as int;
        let mut results: Vec<usize> = Vec::new();
        if limit == 0 {
            assert(self.hits_before(n, folded@, source_filter).take(0) =~= Seq::<usize>::empty());
            return results;
        }
        let mut idx: usize = 0;
        while idx < self.packages.len()
            invariant_except_break
                results@ == self.hits_before(idx as int, folded@, source_filter),
                results@.len() < limit,
            invariant
                self.well_formed(),
                idx <= self.packages@.len(),
                n == self.packages@.len(),
            ensures
                results@ == self.first_hits(folded@, source_filter, limit),
            decreases self.packages@.len() - idx,
        {
            let v = self.packages[idx];
            let wanted = match source_filter {
                Some(f) => v.source == f,
                None => true,
            };
            if wanted {
                let name = v.name(self.arena.as_str());
                let lname = lowercase(name);
                if contains_str(lname.as_str(), folded) {
                    results.push(idx);
                    if results.len() >= limit {
                        proof {
                            self.lemma_hits_prefix(idx + 1, n, folded@, source_filter);
                        }
                        break;
                    }
                }
            }
            idx = idx + 1;
        }
        results
    }

    /// The arena itself.
    pub fn arena(&self) -> (r: &str)
        ensures
            r@ == self.text(),
    {
        self.arena.as_str()
    }

    /// The views, in insertion order.
    pub fn packages(&self) -> (r: &[PackageView])
        ensures
            r@ == self.views(),
    {
        self.packages.as_slice()
    }
}

} // verus!
