//! The grain reconciler: the live set of grains keyed by coordinate, the
//! upsert of an incoming batch of pixel records, and the pruning of grains
//! that left the visible region.

use vstd::prelude::*;

use crate::components::PixelGrain;
use crate::components::PixelRectangle;

verus! {

/// A color as three RGB bytes.
#[derive(Clone, Copy, PartialEq, Eq, Structural, Debug)]
pub struct Rgb {
    pub r: u8,
    pub g: u8,
    pub b: u8,
}

/// The neutral fallback color a grain gets when its color string does not
/// decode. One malformed record never invalidates the rest of a batch.
pub open spec fn neutral_color() -> Rgb {
    Rgb { r: 128, g: 128, b: 128 }
}

/// One pixel record as it travels over the wire: a coordinate and a color
/// rendered as a hex string (as bytes).
#[derive(Clone, PartialEq, Eq, Debug)]
pub struct PixelGrainDto {
    pub x: i64,
    pub y: i64,
    pub color: Vec<u8>,
}

/// The mathematical shadow of a pixel record.
#[verifier::ext_equal]
pub struct GrainRecordV {
    pub x: int,
    pub y: int,
    pub color: Seq<u8>,
}

impl View for PixelGrainDto {
    type V = GrainRecordV;

    open spec fn view(&self) -> GrainRecordV {
        GrainRecordV { x: self.x as int, y: self.y as int, color: self.color@ }
    }
}

/// The views of a sequence of records.
pub open spec fn record_views(b: Seq<PixelGrainDto>) -> Seq<GrainRecordV> {
    b.map_values(|d: PixelGrainDto| d@)
}

/// Whether a byte is an ASCII hex digit.
pub open spec fn is_hex_byte(c: u8) -> bool {
    (0x30 <= c <= 0x39) || (0x61 <= c <= 0x66) || (0x41 <= c <= 0x46)
}

/// The value of an ASCII hex digit.
pub open spec fn hex_val(c: u8) -> int {
    if 0x30 <= c <= 0x39 {
        c - 0x30
    } else if 0x61 <= c <= 0x66 {
        c - 0x57
    } else {
        c - 0x37
    }
}

/// A wire color string with its optional leading `#` stripped.
pub open spec fn color_body(s: Seq<u8>) -> Seq<u8> {
    if s.len() > 0 && s[0] == 0x23 {
        s.subrange(1, s.len() as int)
    } else {
        s
    }
}

/// Whether `t` is exactly six hex digits.
pub open spec fn all_hex6(t: Seq<u8>) -> bool {
    t.len() == 6 && (forall|i: int| 0 <= i < 6 ==> is_hex_byte(#[trigger] t[i]))
}

/// The color a wire color string denotes: an optional leading `#`, then
/// exactly six hex digits (either case); anything else falls back to the
/// neutral color.
pub open spec fn decode_color(s: Seq<u8>) -> Rgb {
    if all_hex6(color_body(s)) {
        Rgb {
            r: (hex_val(color_body(s)[0]) * 16 + hex_val(color_body(s)[1])) as u8,
            g: (hex_val(color_body(s)[2]) * 16 + hex_val(color_body(s)[3])) as u8,
            b: (hex_val(color_body(s)[4]) * 16 + hex_val(color_body(s)[5])) as u8,
        }
    } else {
        neutral_color()
    }
}

/// The value of an ASCII hex digit, executable.
fn hex_val_exec(c: u8) -> (v: u8)
    requires
        is_hex_byte(c),
    ensures
        v == hex_val(c),
{
    if 0x30 <= c && c <= 0x39 {
        c - 0x30
    } else if 0x61 <= c && c <= 0x66 {
        c - 0x57
    } else {
        c - 0x37
    }
}

/// Whether a byte is an ASCII hex digit, executable.
fn is_hex_byte_exec(c: u8) -> (r: bool)
    ensures
        r == is_hex_byte(c),
{
    (0x30 <= c && c <= 0x39) || (0x61 <= c && c <= 0x66) || (0x41 <= c && c <= 0x46)
}

/// Decodes a wire color string to RGB bytes, falling back to the neutral
/// color when it is not `#rrggbb` (the `#` may be missing).
pub fn parse_color(s: &[u8]) -> (c: Rgb)
    ensures
        c == decode_color(s@),
{
    let off: usize = if s.len() > 0 && s[0] == 0x23 {
        1
    } else {
        0
    };
    let ghost t: Seq<u8> = color_body(s@);
    proof {
        assert(t.len() == s@.len() - off);
    }
    if s.len() - off != 6 {
        proof {
            assert(t.len() != 6);
            assert(decode_color(s@) == neutral_color());
        }
        return Rgb { r: 128, g: 128, b: 128 };
    }
    let c0 = s[off];
    let c1 = s[off + 1];
    let c2 = s[off + 2];
    let c3 = s[off + 3];
    let c4 = s[off + 4];
    let c5 = s[off + 5];
    proof {
        assert(t[0] == c0 && t[1] == c1 && t[2] == c2 && t[3] == c3 && t[4] == c4 && t[5] == c5);
    }
    if !(is_hex_byte_exec(c0) && is_hex_byte_exec(c1) && is_hex_byte_exec(c2) && is_hex_byte_exec(
        c3,
    ) && is_hex_byte_exec(c4) && is_hex_byte_exec(c5)) {
        proof {
            if !is_hex_byte(c0) {
                assert(!is_hex_byte(t[0]));
            } else if !is_hex_byte(c1) {
                assert(!is_hex_byte(t[1]));
            } else if !is_hex_byte(c2) {
                assert(!is_hex_byte(t[2]));
            } else if !is_hex_byte(c3) {
                assert(!is_hex_byte(t[3]));
            } else if !is_hex_byte(c4) {
                assert(!is_hex_byte(t[4]));
            } else {
                assert(!is_hex_byte(t[5]));
            }
            assert(decode_color(s@) == neutral_color());
        }
        return Rgb { r: 128, g: 128, b: 128 };
    }
    let r = hex_val_exec(c0) * 16 + hex_val_exec(c1);
    let g = hex_val_exec(c2) * 16 + hex_val_exec(c3);
    let b = hex_val_exec(c4) * 16 + hex_val_exec(c5);
    proof {
        assert(all_hex6(t));
    }
    Rgb { r, g, b }
}

/// One live grain: a coordinate and its last-known color.
#[derive(Clone, Copy, PartialEq, Eq, Structural, Debug)]
pub struct GrainEntry {
    pub grain: PixelGrain,
    pub color: Rgb,
}

/// The coordinate that identifies an entry.
pub open spec fn key_of(e: GrainEntry) -> (int, int) {
    (e.grain.x as int, e.grain.y as int)
}

/// No two entries share a coordinate.
pub open spec fn unique_keys(s: Seq<GrainEntry>) -> bool {
    forall|i: int, j: int| 0 <= i < j < s.len() ==> key_of(s[i]) != key_of(s[j])
}

/// Whether some entry of `s` has coordinate `k`.
pub open spec fn key_at(s: Seq<GrainEntry>, k: (int, int)) -> bool {
    exists|i: int| 0 <= i < s.len() && key_of(#[trigger] s[i]) == k
}

/// The coordinate-to-color map a sequence of entries denotes; later entries
/// win, though with unique keys there is nothing to win over.
pub open spec fn gs_map(s: Seq<GrainEntry>) -> Map<(int, int), Rgb>
    decreases s.len(),
{
    if s.len() == 0 {
        Map::empty()
    } else {
        gs_map(s.drop_last()).insert(key_of(s.last()), s.last().color)
    }
}

/// What `gs_map` holds: its domain is the set of coordinates present, and
/// with unique keys each entry's coordinate maps to that entry's color.
pub proof fn lemma_gs_map_char(s: Seq<GrainEntry>)
    ensures
        forall|k: (int, int)| #[trigger] gs_map(s).contains_key(k) <==> key_at(s, k),
        unique_keys(s) ==> forall|i: int| 0 <= i < s.len() ==> gs_map(s)[key_of(#[trigger] s[i])]
            == s[i].color,
    decreases s.len(),
{
    if s.len() > 0 {
        let s0 = s.drop_last();
        let lastk = key_of(s.last());
        lemma_gs_map_char(s0);
        assert(s.last() == s[s.len() - 1]);
        assert(gs_map(s) == gs_map(s0).insert(lastk, s.last().color));
        assert forall|k: (int, int)| #[trigger] gs_map(s).contains_key(k) implies key_at(s, k) by {
            if k == lastk {
                assert(key_of(s[s.len() - 1]) == k);
            } else {
                assert(gs_map(s0).contains_key(k));
                assert(key_at(s0, k));
                let i = choose|i: int| 0 <= i < s0.len() && key_of(#[trigger] s0[i]) == k;
                assert(s0[i] == s[i]);
                assert(key_of(s[i]) == k);
            }
        }
        assert forall|k: (int, int)| key_at(s, k) implies #[trigger] gs_map(s).contains_key(k) by {
            let i = choose|i: int| 0 <= i < s.len() && key_of(#[trigger] s[i]) == k;
            if i < s.len() - 1 {
                assert(s0[i] == s[i]);
                assert(key_of(s0[i]) == k);
                assert(key_at(s0, k));
                assert(gs_map(s0).contains_key(k));
            } else {
                assert(k == lastk);
            }
        }
        if unique_keys(s) {
            assert(unique_keys(s0)) by {
                assert forall|i: int, j: int| 0 <= i < j < s0.len() implies key_of(
                    #[trigger] s0[i],
                ) != key_of(#[trigger] s0[j]) by {
                    assert(s0[i] == s[i] && s0[j] == s[j]);
                }
            }
            assert forall|i: int| 0 <= i < s.len() implies gs_map(s)[key_of(#[trigger] s[i])]
                == s[i].color by {
                if i < s.len() - 1 {
                    assert(s0[i] == s[i]);
                    assert(key_of(s[i]) != key_of(s[s.len() - 1]));
                    assert(gs_map(s0)[key_of(s0[i])] == s0[i].color);
                }
            }
        }
    }
}

/// The grain set after upserting a batch of records, in order: each record
/// inserts or overwrites the color at its coordinate, a malformed color
/// falling back to the neutral color.
pub open spec fn upsert_batch(m: Map<(int, int), Rgb>, b: Seq<GrainRecordV>) -> Map<
    (int, int),
    Rgb,
>
    decreases b.len(),
{
    if b.len() == 0 {
        m
    } else {
        upsert_batch(m, b.drop_last()).insert(
            (b.last().x, b.last().y),
            decode_color(b.last().color),
        )
    }
}

/// Whether some record of `b` has coordinate `k`.
pub open spec fn batch_has(b: Seq<GrainRecordV>, k: (int, int)) -> bool {
    exists|i: int| 0 <= i < b.len() && ((#[trigger] b[i]).x, b[i].y) == k
}

/// The decoded color of the last record of `b` at coordinate `k`.
pub open spec fn batch_color(b: Seq<GrainRecordV>, k: (int, int)) -> Rgb
    decreases b.len(),
{
    if b.len() == 0 {
        neutral_color()
    } else if (b.last().x, b.last().y) == k {
        decode_color(b.last().color)
    } else {
        batch_color(b.drop_last(), k)
    }
}

/// What `upsert_batch` holds pointwise: a coordinate is present afterward
/// iff it was present before or the batch mentions it; a coordinate the
/// batch mentions ends at the batch's last color for it; any other keeps
/// its old color.
pub proof fn lemma_upsert_batch_char(m: Map<(int, int), Rgb>, b: Seq<GrainRecordV>)
    ensures
        forall|k: (int, int)| #[trigger] upsert_batch(m, b).contains_key(k) <==> m.contains_key(k)
            || batch_has(b, k),
        forall|k: (int, int)| batch_has(b, k) ==> #[trigger] upsert_batch(m, b)[k] == batch_color(
            b,
            k,
        ),
        forall|k: (int, int)| !batch_has(b, k) && m.contains_key(k) ==> #[trigger] upsert_batch(
            m,
            b,
        )[k] == m[k],
    decreases b.len(),
{
    if b.len() > 0 {
        let b0 = b.drop_last();
        lemma_upsert_batch_char(m, b0);
        let last_k = (b.last().x, b.last().y);
        assert(b.last() == b[b.len() - 1]);
        assert(upsert_batch(m, b) == upsert_batch(m, b0).insert(
            last_k,
            decode_color(b.last().color),
        ));
        assert(batch_color(b, last_k) == decode_color(b.last().color));
        assert forall|k: (int, int)| #[trigger] upsert_batch(m, b).contains_key(k) implies m
            .contains_key(k) || batch_has(b, k) by {
            if k == last_k {
                assert(((b[b.len() - 1]).x, b[b.len() - 1].y) == k);
            } else {
                assert(upsert_batch(m, b0).contains_key(k));
                if batch_has(b0, k) {
                    let i = choose|i: int|
                        0 <= i < b0.len() && ((#[trigger] b0[i]).x, b0[i].y) == k;
                    assert(b0[i] == b[i]);
                    assert(((b[i]).x, b[i].y) == k);
                }
            }
        }
        assert forall|k: (int, int)| m.contains_key(k) || batch_has(b, k) implies #[trigger]
        upsert_batch(m, b).contains_key(k) by {
            if k != last_k && batch_has(b, k) {
                let i = choose|i: int| 0 <= i < b.len() && ((#[trigger] b[i]).x, b[i].y) == k;
                assert(i < b.len() - 1);
                assert(b0[i] == b[i]);
                assert(((b0[i]).x, b0[i].y) == k);
                assert(batch_has(b0, k));
                assert(upsert_batch(m, b0).contains_key(k));
            }
        }
        assert forall|k: (int, int)| batch_has(b, k) implies #[trigger] upsert_batch(m, b)[k]
            == batch_color(b, k) by {
            if k != last_k {
                let i = choose|i: int| 0 <= i < b.len() && ((#[trigger] b[i]).x, b[i].y) == k;
                assert(i < b.len() - 1);
                assert(b0[i] == b[i]);
                assert(((b0[i]).x, b0[i].y) == k);
                assert(batch_has(b0, k));
                assert(upsert_batch(m, b0)[k] == batch_color(b0, k));
                assert(batch_color(b, k) == batch_color(b0, k));
            }
        }
        assert forall|k: (int, int)| !batch_has(b, k) && m.contains_key(k) implies #[trigger]
        upsert_batch(m, b)[k] == m[k] by {
            assert(!batch_has(b0, k)) by {
                if batch_has(b0, k) {
                    let i = choose|i: int|
                        0 <= i < b0.len() && ((#[trigger] b0[i]).x, b0[i].y) == k;
                    assert(b0[i] == b[i]);
                    assert(((b[i]).x, b[i].y) == k);
                }
            }
            assert(k != last_k) by {
                if k == last_k {
                    assert(((b[b.len() - 1]).x, b[b.len() - 1].y) == k);
                }
            }
        }
    }
}

/// Upserting the same batch twice leaves the same grain set as upserting it
/// once: the second pass overwrites every touched coordinate with the same
/// color again.
pub proof fn lemma_apply_batch_idempotent(m: Map<(int, int), Rgb>, b: Seq<GrainRecordV>)
    ensures
        upsert_batch(upsert_batch(m, b), b) == upsert_batch(m, b),
{
    let once = upsert_batch(m, b);
    let twice = upsert_batch(once, b);
    lemma_upsert_batch_char(m, b);
    lemma_upsert_batch_char(once, b);
    assert forall|k: (int, int)| twice.contains_key(k) implies once.contains_key(k) && #[trigger]
    twice[k] == once[k] by {
        if batch_has(b, k) {
        } else {
        }
    }
    assert(twice =~= once);
}

/// The set of coordinates inside a region.
pub open spec fn region_keys(region: PixelRectangle) -> Set<(int, int)> {
    Set::new(|k: (int, int)| region.spec_contains(k.0, k.1))
}

/// The live set of grains: at most one grain per coordinate. Its view is
/// the map from coordinate to last-known color.
pub struct GrainSet {
    grains: Vec<GrainEntry>,
}

impl GrainSet {
    /// The entries as stored, in insertion order.
    pub closed spec fn entries(self) -> Seq<GrainEntry> {
        self.grains@
    }

    /// No two entries share a coordinate.
    pub closed spec fn wf(self) -> bool {
        unique_keys(self.grains@)
    }

    /// The map from coordinate to color that the set denotes.
    pub closed spec fn view(self) -> Map<(int, int), Rgb> {
        gs_map(self.grains@)
    }

    /// The empty grain set.
    pub fn new() -> (s: GrainSet)
        ensures
            s.wf(),
            s@ == Map::<(int, int), Rgb>::empty(),
            s.entries() == Seq::<GrainEntry>::empty(),
    {
        GrainSet { grains: Vec::new() }
    }

    /// The entries, for rendering.
    pub fn as_entries(&self) -> (r: &Vec<GrainEntry>)
        ensures
            r@ == self.entries(),
    {
        &self.grains
    }

    /// How many grains are live.
    pub fn len(&self) -> (n: usize)
        ensures
            n == self.entries().len(),
    {
        self.grains.len()
    }

    /// The color at a coordinate, if a grain is live there.
    #[verifier::loop_isolation(false)]
    pub fn get(&self, x: i64, y: i64) -> (r: Option<Rgb>)
        requires
            self.wf(),
        ensures
            match r {
                Some(c) => self@.contains_key((x as int, y as int)) && self@[(x as int, y as int)]
                    == c,
                None => !self@.contains_key((x as int, y as int)),
            },
    {
        proof {
            lemma_gs_map_char(self.grains@);
        }
        let n = self.grains.len();
        let mut i: usize = 0;
        while i < n
            invariant
                n == self.grains@.len(),
                0 <= i <= n,
                forall|j: int| 0 <= j < i ==> key_of(#[trigger] self.grains@[j]) != (
                x as int,
                y as int,
                ),
            decreases n - i,
        {
            let e = self.grains[i];
            if e.grain.x == x && e.grain.y == y {
                proof {
                    assert(key_of(self.grains@[i as int]) == (x as int, y as int));
                }
                return Some(e.color);
            }
            i = i + 1;
        }
        None
    }

    /// Inserts or overwrites the grain at `(x, y)` with `color`.
    #[verifier::loop_isolation(false)]
    pub fn upsert(&mut self, x: i64, y: i64, color: Rgb)
        requires
            old(self).wf(),
        ensures
            final(self).wf(),
            final(self)@ == old(self)@.insert((x as int, y as int), color),
    {
        proof {
            lemma_gs_map_char(self.grains@);
        }
        let ghost s: Seq<GrainEntry> = self.grains@;
        let ghost k: (int, int) = (x as int, y as int);
        let entry = GrainEntry { grain: PixelGrain::new(x, y), color };
        let n = self.grains.len();
        let mut i: usize = 0;
        while i < n
            invariant
                n == self.grains@.len(),
                0 <= i <= n,
                self.grains@ == s,
                forall|j: int| 0 <= j < i ==> key_of(#[trigger] s[j]) != k,
            decreases n - i,
        {
            let e = self.grains[i];
            if e.grain.x == x && e.grain.y == y {
                self.grains[i] = entry;
                proof {
                    let t = self.grains@;
                    assert(t == s.update(i as int, entry));
                    assert(key_of(t[i as int]) == k && key_of(s[i as int]) == k);
                    assert(unique_keys(t)) by {
                        assert forall|p: int, q: int| 0 <= p < q < t.len() implies key_of(t[p])
                            != key_of(t[q]) by {
                            assert(key_of(t[p]) == key_of(s[p]) && key_of(t[q]) == key_of(s[q]));
                        }
                    }
                    lemma_gs_map_char(t);
                    assert forall|k2: (int, int)| true implies #[trigger] gs_map(t).contains_key(k2)
                        == gs_map(s).insert(k, color).contains_key(k2) by {
                        if gs_map(t).contains_key(k2) {
                            let j = choose|j: int| 0 <= j < t.len() && key_of(#[trigger] t[j])
                                == k2;
                            if j != i {
                                assert(key_of(s[j]) == k2);
                            }
                        }
                        if k2 != k && gs_map(s).contains_key(k2) {
                            let j = choose|j: int| 0 <= j < s.len() && key_of(#[trigger] s[j])
                                == k2;
                            assert(j != i);
                            assert(key_of(t[j]) == k2);
                        }
                    }
                    assert forall|k2: (int, int)| gs_map(t).contains_key(k2) implies #[trigger]
                    gs_map(t)[k2] == gs_map(s).insert(k, color)[k2] by {
                        let j = choose|j: int| 0 <= j < t.len() && key_of(#[trigger] t[j]) == k2;
                        assert(gs_map(t)[k2] == t[j].color);
                        if k2 == k {
                            assert(j == i) by {
                                if j != i {
                                    assert(key_of(s[j]) == k2 && key_of(s[i as int]) == k);
                                }
                            }
                        } else {
                            assert(j != i);
                            assert(key_of(s[j]) == k2);
                            assert(gs_map(s)[k2] == s[j].color);
                        }
                    }
                    assert(gs_map(t) =~= gs_map(s).insert(k, color));
                }
                return ;
            }
            i = i + 1;
        }
        self.grains.push(entry);
        proof {
            let t = self.grains@;
            assert(t.drop_last() =~= s);
            assert(t.last() == entry);
            assert(unique_keys(t)) by {
                assert forall|p: int, q: int| 0 <= p < q < t.len() implies key_of(t[p]) != key_of(
                    t[q],
                ) by {
                    if q < t.len() - 1 {
                        assert(key_of(t[p]) == key_of(s[p]) && key_of(t[q]) == key_of(s[q]));
                    } else {
                        assert(key_of(t[p]) == key_of(s[p]) && key_of(s[p]) != k);
                    }
                }
            }
            assert(gs_map(t) == gs_map(s).insert(k, color));
        }
    }

    /// Merges an incoming batch into the live set, in arrival order: each
    /// record inserts or overwrites the grain at its coordinate, decoding
    /// its color with the neutral fallback.
    #[verifier::loop_isolation(false)]
    pub fn apply_batch(&mut self, batch: &Vec<PixelGrainDto>)
        requires
            old(self).wf(),
        ensures
            final(self).wf(),
            final(self)@ == upsert_batch(old(self)@, record_views(batch@)),
    {
        let ghost m0: Map<(int, int), Rgb> = self@;
        let ghost views: Seq<GrainRecordV> = record_views(batch@);
        let n = batch.len();
        let mut i: usize = 0;
        while i < n
            invariant
                self.wf(),
                n == batch@.len(),
                0 <= i <= n,
                views == record_views(batch@),
                self@ == upsert_batch(m0, views.take(i as int)),
            decreases n - i,
        {
            let d = &batch[i];
            let color = parse_color(d.color.as_slice());
            self.upsert(d.x, d.y, color);
            proof {
                let taken = views.take(i + 1);
                assert(taken.drop_last() =~= views.take(i as int));
                assert(taken.last() == batch@[i as int]@);
                assert(self@ == upsert_batch(m0, taken));
            }
            i = i + 1;
        }
        proof {
            assert(views.take(n as int) =~= views);
        }
    }

    /// Removes every grain whose coordinate lies outside the closed
    /// rectangle `region`. Every grain inside it survives, with its color.
    #[verifier::loop_isolation(false)]
    pub fn prune(&mut self, region: &PixelRectangle)
        requires
            old(self).wf(),
        ensures
            final(self).wf(),
            final(self)@ == old(self)@.restrict(region_keys(*region)),
            forall|k: (int, int)| #[trigger] final(self)@.contains_key(k) ==> region.spec_contains(
                k.0,
                k.1,
            ),
    {
        proof {
            lemma_gs_map_char(self.grains@);
        }
        let ghost s: Seq<GrainEntry> = self.grains@;
        let n = self.grains.len();
        let mut kept: Vec<GrainEntry> = Vec::new();
        let mut i: usize = 0;
        while i < n
            invariant
                n == s.len(),
                0 <= i <= n,
                self.grains@ == s,
                unique_keys(s),
                forall|j: int| 0 <= j < kept@.len() ==> exists|i2: int|
                    0 <= i2 < i && #[trigger] kept@[j] == s[i2],
                forall|j: int| 0 <= j < kept@.len() ==> region.spec_contains(
                    key_of(#[trigger] kept@[j]).0,
                    key_of(kept@[j]).1,
                ),
                forall|i2: int|
                    0 <= i2 < i && region.spec_contains(
                        key_of(#[trigger] s[i2]).0,
                        key_of(s[i2]).1,
                    ) ==> key_at(kept@, key_of(s[i2])),
                unique_keys(kept@),
            decreases n - i,
        {
            let e = self.grains[i];
            if region.contains(e.grain.x, e.grain.y) {
                let ghost kpre: Seq<GrainEntry> = kept@;
                kept.push(e);
                proof {
                    assert(kept@[kept@.len() - 1] == s[i as int]);
                    assert(unique_keys(kept@)) by {
                        assert forall|p: int, q: int| 0 <= p < q < kept@.len() implies key_of(
                            kept@[p],
                        ) != key_of(kept@[q]) by {
                            if q < kept@.len() - 1 {
                                assert(kept@[p] == kpre[p] && kept@[q] == kpre[q]);
                            } else {
                                assert(kept@[p] == kpre[p]);
                                let i2 = choose|i2: int|
                                    0 <= i2 < i && #[trigger] kpre[p] == s[i2];
                                assert(key_of(s[i2]) != key_of(s[i as int]));
                            }
                        }
                    }
                    assert forall|i2: int|
                        0 <= i2 < i + 1 && region.spec_contains(
                            key_of(#[trigger] s[i2]).0,
                            key_of(s[i2]).1,
                        ) implies key_at(kept@, key_of(s[i2])) by {
                        if i2 < i {
                            assert(key_at(kpre, key_of(s[i2])));
                            let j = choose|j: int|
                                0 <= j < kpre.len() && key_of(#[trigger] kpre[j]) == key_of(s[i2]);
                            assert(key_of(kept@[j]) == key_of(s[i2]));
                        } else {
                            assert(key_of(kept@[kept@.len() - 1]) == key_of(s[i2]));
                        }
                    }
                }
            }
            i = i + 1;
        }
        self.grains = kept;
        proof {
            let t = self.grains@;
            lemma_gs_map_char(t);
            assert forall|k: (int, int)| true implies #[trigger] gs_map(t).contains_key(k)
                == gs_map(s).restrict(region_keys(*region)).contains_key(k) by {
                if gs_map(t).contains_key(k) {
                    let j = choose|j: int| 0 <= j < t.len() && key_of(#[trigger] t[j]) == k;
                    let i2 = choose|i2: int| 0 <= i2 < n && #[trigger] t[j] == s[i2];
                    assert(key_of(s[i2]) == k);
                    assert(gs_map(s).contains_key(k));
                    assert(region.spec_contains(k.0, k.1));
                    assert(region_keys(*region).contains(k));
                }
                if gs_map(s).contains_key(k) && region_keys(*region).contains(k) {
                    let i2 = choose|i2: int| 0 <= i2 < s.len() && key_of(#[trigger] s[i2]) == k;
                    assert(region.spec_contains(key_of(s[i2]).0, key_of(s[i2]).1));
                    assert(key_at(t, k));
                }
            }
            assert forall|k: (int, int)| gs_map(t).contains_key(k) implies #[trigger] gs_map(t)[k]
                == gs_map(s)[k] by {
                let j = choose|j: int| 0 <= j < t.len() && key_of(#[trigger] t[j]) == k;
                let i2 = choose|i2: int| 0 <= i2 < n && #[trigger] t[j] == s[i2];
                assert(gs_map(t)[k] == t[j].color);
                assert(key_of(s[i2]) == k);
                assert(gs_map(s)[key_of(s[i2])] == s[i2].color);
            }
            assert(gs_map(t) =~= gs_map(s).restrict(region_keys(*region)));
        }
    }
}

} // verus!
