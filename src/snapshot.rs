//! The snapshot format: a header, the raw arena bytes, then the views, each
//! field a little-endian integer, so that a store survives between runs.

use vstd::prelude::*;
use vstd::utf8::*;

use crate::database::{view_fits, PackageView};
use crate::package::PackageSource;

verus! {

/// The `n` little-endian bytes of `v`.
pub open spec fn le_bytes(v: nat, n: nat) -> Seq<u8>
    decreases n,
{
    if n == 0 {
        seq![]
    } else {
        seq![(v % 256) as u8] + le_bytes(v / 256, (n - 1) as nat)
    }
}

/// The number whose little-endian bytes are `b`.
pub open spec fn le_value(b: Seq<u8>) -> nat
    decreases b.len(),
{
    if b.len() == 0 {
        0
    } else {
        b[0] as nat + 256 * le_value(b.drop_first())
    }
}

/// `256` to the power `n`.
pub open spec fn pow256(n: nat) -> nat
    decreases n,
{
    if n == 0 {
        1
    } else {
        256 * pow256((n - 1) as nat)
    }
}

pub proof fn lemma_le_bytes_len(v: nat, n: nat)
    ensures
        le_bytes(v, n).len() == n,
    decreases n,
{
    if n > 0 {
        lemma_le_bytes_len(v / 256, (n - 1) as nat);
    }
}

pub proof fn lemma_le_value_bound(b: Seq<u8>)
    ensures
        le_value(b) < pow256(b.len()),
    decreases b.len(),
{
    if b.len() > 0 {
        lemma_le_value_bound(b.drop_first());
        let r = le_value(b.drop_first());
        let p = pow256(b.drop_first().len());
        assert(b[0] as nat + 256 * r < 256 * p) by (nonlinear_arith)
            requires
                r < p,
                b[0] < 256,
        ;
    }
}

/// Reading back the bytes of a value that fits gives the value.
pub proof fn lemma_le_round_trip(v: nat, n: nat)
    requires
        v < pow256(n),
    ensures
        le_value(le_bytes(v, n)) == v,
    decreases n,
{
    if n > 0 {
        let p = pow256((n - 1) as nat);
        assert(v / 256 < p) by (nonlinear_arith)
            requires
                v < 256 * p,
        ;
        lemma_le_round_trip(v / 256, (n - 1) as nat);
        assert(le_bytes(v, n).drop_first() =~= le_bytes(v / 256, (n - 1) as nat));
        assert(v == v % 256 + 256 * (v / 256)) by (nonlinear_arith);
    }
}

pub proof fn lemma_pow256_values()
    ensures
        pow256(4) == 0x1_0000_0000,
        pow256(8) == 0x1_0000_0000_0000_0000,
{
    reveal_with_fuel(pow256, 9);
}

/// Appends the `n` little-endian bytes of `v` to `out`.
pub(crate) fn put_le(out: &mut Vec<u8>, v: u64, n: usize)
    requires
        n <= 8,
    ensures
        final(out)@ == old(out)@ + le_bytes(v as nat, n as nat),
{
    let ghost start = old(out)@;
    let mut rest: u64 = v;
    let mut i: usize = 0;
    while i < n
        invariant
            i <= n,
            out@ + le_bytes(rest as nat, (n - i) as nat) == start + le_bytes(v as nat, n as nat),
        decreases n - i,
    {
        let ghost before = out@;
        out.push((rest % 256) as u8);
        proof {
            assert(le_bytes(rest as nat, (n - i) as nat) == seq![(rest % 256) as u8] + le_bytes(
                (rest / 256) as nat,
                (n - i - 1) as nat,
            ));
            assert(out@ + le_bytes((rest / 256) as nat, (n - i - 1) as nat) =~= before + le_bytes(
                rest as nat,
                (n - i) as nat,
            ));
        }
        rest = rest / 256;
        i = i + 1;
    }
    assert(le_bytes(rest as nat, 0) =~= Seq::<u8>::empty());
    assert(out@ =~= out@ + le_bytes(rest as nat, 0));
}

/// The little-endian number held by `b[pos..pos + n]`.
pub(crate) fn get_le(b: &[u8], pos: usize, n: usize) -> (r: u64)
    requires
        n <= 8,
        pos + n <= b@.len(),
    ensures
        r as nat == le_value(b@.subrange(pos as int, pos + n)),
{
    let len = b.len();
    let mut acc: u64 = 0;
    let mut i: usize = n;
    proof {
        lemma_pow256_values();
    }
    while i > 0
        invariant
            i <= n <= 8,
            pos + n <= b@.len(),
            len == b@.len(),
            acc as nat == le_value(b@.subrange(pos + i, pos + n)),
            pow256(8) == 0x1_0000_0000_0000_0000,
        decreases i,
    {
        let ghost tail = b@.subrange(pos + i, pos + n);
        let ghost whole = b@.subrange(pos + i - 1, pos + n);
        proof {
            assert(whole.drop_first() =~= tail);
            lemma_le_value_bound(tail);
            lemma_pow_mono(tail.len(), 7);
            assert(acc * 256 + b@[pos + i - 1] < pow256(8)) by (nonlinear_arith)
                requires
                    acc < pow256(tail.len()),
                    pow256(tail.len()) <= pow256(7),
                    pow256(8) == 256 * pow256(7),
                    b@[pos + i - 1] < 256,
            ;
        }
        acc = acc * 256 + b[pos + i - 1] as u64;
        i = i - 1;
    }
    acc
}

proof fn lemma_pow_mono(a: nat, b: nat)
    requires
        a <= b,
    ensures
        pow256(a) <= pow256(b),
    decreases b,
{
    if a < b {
        lemma_pow_mono(a, (b - 1) as nat);
    }
}

/// The format version written into, and demanded of, every snapshot.
pub const CACHE_VERSION: u32 = 1;

/// Bytes before the arena: version, counts, arena length, timestamp, and
/// the arena's length prefix.
pub const HEADER_LEN: usize = 44;

/// Bytes of one encoded view: start, end and source tag.
pub const VIEW_LEN: usize = 20;

/// The number a source is written as.
pub open spec fn source_tag(s: PackageSource) -> nat {
    match s {
        PackageSource::Official => 0,
        PackageSource::Aur => 1,
    }
}

/// The encoding of one view.
pub open spec fn view_bytes(v: PackageView) -> Seq<u8> {
    le_bytes(v.name_start as nat, 8) + le_bytes(v.name_end as nat, 8) + le_bytes(
        source_tag(v.source),
        4,
    )
}

/// The encodings of the views, one after the other.
pub open spec fn views_bytes(vs: Seq<PackageView>) -> Seq<u8>
    decreases vs.len(),
{
    if vs.len() == 0 {
        seq![]
    } else {
        views_bytes(vs.drop_last()) + view_bytes(vs.last())
    }
}

/// The header of a snapshot, up to and including the arena's length prefix.
pub open spec fn header_bytes(official: nat, aur: nat, timestamp: nat, arena_len: nat) -> Seq<u8> {
    le_bytes(CACHE_VERSION as nat, 4) + le_bytes(official, 8) + le_bytes(aur, 8) + le_bytes(
        arena_len,
        8,
    ) + le_bytes(timestamp, 8) + le_bytes(arena_len, 8)
}

/// A whole snapshot: header, arena bytes, view count, views.
pub open spec fn snapshot_bytes(
    official: nat,
    aur: nat,
    timestamp: nat,
    arena: Seq<u8>,
    views: Seq<PackageView>,
) -> Seq<u8> {
    header_bytes(official, aur, timestamp, arena.len()) + arena + le_bytes(views.len(), 8)
        + views_bytes(views)
}

/// What a snapshot holds.
pub struct Snapshot {
    pub official_count: nat,
    pub aur_count: nat,
    pub timestamp: nat,
    pub arena: Seq<u8>,
    pub views: Seq<PackageView>,
}

/// The little-endian number at `b[pos..pos + n]`.
pub open spec fn field(b: Seq<u8>, pos: int, n: int) -> nat {
    le_value(b.subrange(pos, pos + n))
}

/// The view encoded at `p`, read as is.
pub open spec fn view_at(b: Seq<u8>, p: int) -> PackageView {
    PackageView {
        name_start: field(b, p, 8) as usize,
        name_end: field(b, p + 8, 8) as usize,
        source: if field(b, p + 16, 4) == 0 {
            PackageSource::Official
        } else {
            PackageSource::Aur
        },
    }
}

/// The view encoded at `p` is usable in `arena`.
pub open spec fn view_ok_at(b: Seq<u8>, p: int, arena: Seq<u8>) -> bool {
    &&& field(b, p + 16, 4) <= 1
    &&& field(b, p, 8) <= field(b, p + 8, 8) <= arena.len()
    &&& view_fits(arena, view_at(b, p))
}

/// The version a snapshot claims, if it is long enough to claim one.
pub open spec fn claimed_version(b: Seq<u8>) -> Option<nat> {
    if b.len() >= 4 {
        Some(field(b, 0, 4))
    } else {
        None
    }
}

/// Reads a snapshot. Anything short, of another version, inconsistent, or
/// with a view that does not fit its arena reads as nothing.
pub open spec fn parse_snapshot(b: Seq<u8>) -> Option<Snapshot> {
    if b.len() > usize::MAX || b.len() < HEADER_LEN || field(b, 0, 4) != CACHE_VERSION as nat {
        None
    } else {
        let alen = field(b, 20, 8);
        if field(b, 36, 8) != alen || HEADER_LEN + alen + 8 > b.len() {
            None
        } else {
            let arena = b.subrange(HEADER_LEN as int, HEADER_LEN + alen);
            let nv = field(b, HEADER_LEN + alen, 8);
            let vstart = HEADER_LEN + alen + 8;
            if b.len() != vstart + VIEW_LEN * nv || !valid_utf8(arena) || field(b, 4, 8)
                > usize::MAX || field(b, 12, 8) > usize::MAX || !(forall|i: int|
                0 <= i < nv ==> #[trigger] view_ok_at(b, vstart + VIEW_LEN * i, arena)) {
                None
            } else {
                Some(
                    Snapshot {
                        official_count: field(b, 4, 8),
                        aur_count: field(b, 12, 8),
                        timestamp: field(b, 28, 8),
                        arena,
                        views: Seq::new(nv, |i: int| view_at(b, vstart + VIEW_LEN * i)),
                    },
                )
            }
        }
    }
}

proof fn lemma_field_of(p: Seq<u8>, v: nat, n: nat, q: Seq<u8>)
    requires
        v < pow256(n),
    ensures
        field(p + le_bytes(v, n) + q, p.len() as int, n as int) == v,
{
    lemma_le_bytes_len(v, n);
    assert((p + le_bytes(v, n) + q).subrange(p.len() as int, (p.len() + n) as int) =~= le_bytes(v, n));
    lemma_le_round_trip(v, n);
}

proof fn lemma_views_bytes(vs: Seq<PackageView>)
    ensures
        views_bytes(vs).len() == VIEW_LEN * vs.len(),
        forall|i: int|
            0 <= i < vs.len() ==> views_bytes(vs).subrange(
                VIEW_LEN * i,
                VIEW_LEN * i + VIEW_LEN,
            ) == view_bytes(#[trigger] vs[i]),
    decreases vs.len(),
{
    if vs.len() > 0 {
        let init = vs.drop_last();
        lemma_views_bytes(init);
        let last = view_bytes(vs.last());
        lemma_le_bytes_len(vs.last().name_start as nat, 8);
        lemma_le_bytes_len(vs.last().name_end as nat, 8);
        lemma_le_bytes_len(source_tag(vs.last().source), 4);
        assert forall|i: int| 0 <= i < vs.len() implies views_bytes(vs).subrange(
            VIEW_LEN * i,
            VIEW_LEN * i + VIEW_LEN,
        ) == view_bytes(#[trigger] vs[i]) by {
            if i < init.len() {
                assert(init[i] == vs[i]);
                assert(views_bytes(vs).subrange(VIEW_LEN * i, VIEW_LEN * i + VIEW_LEN)
                    =~= views_bytes(init).subrange(VIEW_LEN * i, VIEW_LEN * i + VIEW_LEN));
            } else {
                assert(views_bytes(vs).subrange(VIEW_LEN * i, VIEW_LEN * i + VIEW_LEN) =~= last);
            }
        }
    }
}

/// A view's encoding reads back as the same view.
proof fn lemma_view_round_trip(b: Seq<u8>, p: int, v: PackageView)
    requires
        0 <= p,
        p + VIEW_LEN <= b.len(),
        b.subrange(p, p + VIEW_LEN) == view_bytes(v),
    ensures
        field(b, p, 8) == v.name_start,
        field(b, p + 8, 8) == v.name_end,
        field(b, p + 16, 4) == source_tag(v.source),
        view_at(b, p) == v,
{
    lemma_pow256_values();
    let w = b.subrange(p, p + VIEW_LEN);
    let e = Seq::<u8>::empty();
    let s8 = le_bytes(v.name_start as nat, 8);
    let e8 = le_bytes(v.name_end as nat, 8);
    let t4 = le_bytes(source_tag(v.source), 4);
    lemma_le_bytes_len(v.name_start as nat, 8);
    lemma_le_bytes_len(v.name_end as nat, 8);
    assert(w =~= e + s8 + (e8 + t4));
    lemma_field_of(e, v.name_start as nat, 8, e8 + t4);
    assert(w =~= s8 + e8 + t4);
    lemma_field_of(s8, v.name_end as nat, 8, t4);
    assert(w =~= (s8 + e8) + t4 + e);
    lemma_field_of(s8 + e8, source_tag(v.source), 4, e);
    assert(b.subrange(p, p + 8) =~= w.subrange(0, 8));
    assert(b.subrange(p + 8, p + 16) =~= w.subrange(8, 16));
    assert(b.subrange(p + 16, p + 20) =~= w.subrange(16, 20));
}

proof fn lemma_snapshot_header(
    official: usize,
    aur: usize,
    timestamp: u64,
    arena: Seq<u8>,
    views: Seq<PackageView>,
)
    requires
        snapshot_bytes(official as nat, aur as nat, timestamp as nat, arena, views).len()
            <= usize::MAX,
    ensures
        ({
            let b = snapshot_bytes(official as nat, aur as nat, timestamp as nat, arena, views);
            let alen = arena.len();
            &&& b.len() == HEADER_LEN + alen + 8 + VIEW_LEN * views.len()
            &&& field(b, 0, 4) == CACHE_VERSION as nat
            &&& field(b, 4, 8) == official as nat
            &&& field(b, 12, 8) == aur as nat
            &&& field(b, 20, 8) == alen
            &&& field(b, 28, 8) == timestamp as nat
            &&& field(b, 36, 8) == alen
            &&& b.subrange(HEADER_LEN as int, HEADER_LEN + alen) == arena
            &&& field(b, HEADER_LEN + alen, 8) == views.len()
            &&& b.subrange(HEADER_LEN + alen + 8, b.len() as int) == views_bytes(views)
        }),
{
    lemma_pow256_values();
    let b = snapshot_bytes(official as nat, aur as nat, timestamp as nat, arena, views);
    let alen = arena.len();
    let v4 = le_bytes(CACHE_VERSION as nat, 4);
    let o8 = le_bytes(official as nat, 8);
    let a8 = le_bytes(aur as nat, 8);
    let l8 = le_bytes(alen, 8);
    let t8 = le_bytes(timestamp as nat, 8);
    let n8 = le_bytes(views.len(), 8);
    let vb = views_bytes(views);
    lemma_le_bytes_len(CACHE_VERSION as nat, 4);
    lemma_le_bytes_len(official as nat, 8);
    lemma_le_bytes_len(aur as nat, 8);
    lemma_le_bytes_len(alen, 8);
    lemma_le_bytes_len(timestamp as nat, 8);
    lemma_le_bytes_len(views.len(), 8);
    lemma_views_bytes(views);
    let e = Seq::<u8>::empty();
    assert(b =~= e + v4 + (o8 + a8 + l8 + t8 + l8 + arena + n8 + vb));
    lemma_field_of(e, CACHE_VERSION as nat, 4, o8 + a8 + l8 + t8 + l8 + arena + n8 + vb);
    assert(b =~= v4 + o8 + (a8 + l8 + t8 + l8 + arena + n8 + vb));
    lemma_field_of(v4, official as nat, 8, a8 + l8 + t8 + l8 + arena + n8 + vb);
    assert(b =~= (v4 + o8) + a8 + (l8 + t8 + l8 + arena + n8 + vb));
    lemma_field_of(v4 + o8, aur as nat, 8, l8 + t8 + l8 + arena + n8 + vb);
    assert(b =~= (v4 + o8 + a8) + l8 + (t8 + l8 + arena + n8 + vb));
    lemma_field_of(v4 + o8 + a8, alen, 8, t8 + l8 + arena + n8 + vb);
    assert(b =~= (v4 + o8 + a8 + l8) + t8 + (l8 + arena + n8 + vb));
    lemma_field_of(v4 + o8 + a8 + l8, timestamp as nat, 8, l8 + arena + n8 + vb);
    assert(b =~= (v4 + o8 + a8 + l8 + t8) + l8 + (arena + n8 + vb));
    lemma_field_of(v4 + o8 + a8 + l8 + t8, alen, 8, arena + n8 + vb);
    let head = v4 + o8 + a8 + l8 + t8 + l8 + arena;
    assert(b =~= head + n8 + vb);
    lemma_field_of(head, views.len(), 8, vb);
    assert(b.subrange(HEADER_LEN as int, HEADER_LEN + alen) =~= arena);
    assert(b.subrange(HEADER_LEN + alen + 8, b.len() as int) =~= vb);
}

proof fn lemma_snapshot_views(b: Seq<u8>, vstart: int, arena: Seq<u8>, views: Seq<PackageView>)
    requires
        0 <= vstart,
        b.len() == vstart + VIEW_LEN * views.len(),
        b.subrange(vstart, b.len() as int) == views_bytes(views),
        forall|i: int| 0 <= i < views.len() ==> view_fits(arena, #[trigger] views[i]),
    ensures
        forall|i: int|
            0 <= i < views.len() ==> #[trigger] view_ok_at(b, vstart + VIEW_LEN * i, arena),
        Seq::new(views.len(), |i: int| view_at(b, vstart + VIEW_LEN * i)) == views,
{
    lemma_views_bytes(views);
    let vb = views_bytes(views);
    assert forall|i: int| 0 <= i < views.len() implies #[trigger] view_ok_at(
        b,
        vstart + VIEW_LEN * i,
        arena,
    ) && view_at(b, vstart + VIEW_LEN * i) == views[i] by {
        assert(b.subrange(vstart + VIEW_LEN * i, vstart + VIEW_LEN * i + VIEW_LEN) =~= vb.subrange(
            VIEW_LEN * i,
            VIEW_LEN * i + VIEW_LEN,
        ));
        lemma_view_round_trip(b, vstart + VIEW_LEN * i, views[i]);
    }
    assert forall|i: int| 0 <= i < views.len() implies view_at(b, vstart + VIEW_LEN * i)
        == #[trigger] views[i] by {
        assert(view_ok_at(b, vstart + VIEW_LEN * i, arena));
    }
    assert(Seq::new(views.len(), |i: int| view_at(b, vstart + VIEW_LEN * i)) =~= views);
}

/// A snapshot that claims another version reads as nothing, whatever
/// follows its version field.
pub proof fn lemma_other_version_is_miss(b: Seq<u8>)
    requires
        claimed_version(b) matches Some(v) && v != CACHE_VERSION as nat,
    ensures
        parse_snapshot(b) is None,
{
}

/// A snapshot with one unusable view reads as nothing.
pub proof fn lemma_parse_rejects_view(b: Seq<u8>, i: int)
    requires
        b.len() >= HEADER_LEN + field(b, 20, 8) + 8,
        0 <= i < field(b, HEADER_LEN + field(b, 20, 8), 8),
        !view_ok_at(
            b,
            HEADER_LEN + field(b, 20, 8) + 8 + VIEW_LEN * i,
            b.subrange(HEADER_LEN as int, HEADER_LEN + field(b, 20, 8)),
        ),
    ensures
        parse_snapshot(b) is None,
{
}

/// Saving and then reading back a well-formed store gives the same counts,
/// timestamp, arena bytes and views.
pub proof fn lemma_snapshot_round_trip(
    official: usize,
    aur: usize,
    timestamp: u64,
    arena: Seq<u8>,
    views: Seq<PackageView>,
)
    requires
        valid_utf8(arena),
        forall|i: int| 0 <= i < views.len() ==> view_fits(arena, #[trigger] views[i]),
        snapshot_bytes(official as nat, aur as nat, timestamp as nat, arena, views).len()
            <= usize::MAX,
    ensures
        parse_snapshot(snapshot_bytes(official as nat, aur as nat, timestamp as nat, arena, views))
            == Some(
            Snapshot {
                official_count: official as nat,
                aur_count: aur as nat,
                timestamp: timestamp as nat,
                arena,
                views,
            },
        ),
{
    let b = snapshot_bytes(official as nat, aur as nat, timestamp as nat, arena, views);
    lemma_snapshot_header(official, aur, timestamp, arena, views);
    lemma_snapshot_views(b, HEADER_LEN + arena.len() + 8, arena, views);
}

} // verus!
