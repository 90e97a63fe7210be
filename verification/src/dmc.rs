//! The reference DMC thread palette: entries parsed from `#RRGGBB` hex text,
//! uniqueness of names, codes and colors enforced at construction, and
//! nearest-color lookup with bill-of-materials aggregation over images.

use vstd::prelude::*;

use crate::color::{spec_dist2, Color};
use crate::image::Img;

verus! {

/// Errors of palette construction and loading.  The I/O and JSON variants are
/// produced by the callers that read palette files; validation itself yields
/// the last three.
#[derive(Debug, Clone, PartialEq, Eq)]
pub enum DmcError {
    IoError(String),
    SerdeJsonError(String),
    HexColorParseFailed(String),
    DmcDataCorrupted,
    DmcDataNotUnique,
}

/// One DMC thread color: a human-readable name, the vendor code, and the
/// 24-bit sRGB color.
#[derive(Debug, Clone, PartialEq, Eq)]
pub struct Dmc {
    pub name: String,
    pub code: String,
    pub color: Color,
}

/// A palette entry as it appears in the palette file: the color still in
/// `#RRGGBB` text form.
#[derive(Debug, Clone, PartialEq, Eq)]
pub struct DmcDataIo {
    pub name: String,
    pub code: String,
    pub color: String,
}

/// A whole palette in file form.
#[derive(Debug, Clone)]
pub struct PaletteDmcDataIo(pub Vec<DmcDataIo>);

/// Hexadecimal digit, either case.
pub open spec fn spec_is_hex_digit(c: char) -> bool {
    ('0' <= c && c <= '9') || ('a' <= c && c <= 'f') || ('A' <= c && c <= 'F')
}

/// Value of a hexadecimal digit.
pub open spec fn spec_hex_val(c: char) -> int {
    if '0' <= c && c <= '9' {
        c as int - '0' as int
    } else if 'a' <= c && c <= 'f' {
        c as int - 'a' as int + 10
    } else {
        c as int - 'A' as int + 10
    }
}

/// A well-formed `#RRGGBB` color text: a `#`, then six hex digits.
pub open spec fn spec_hex_color_ok(s: Seq<char>) -> bool {
    &&& s.len() == 7
    &&& s[0] == '#'
    &&& forall|i: int| 1 <= i < 7 ==> spec_is_hex_digit(#[trigger] s[i])
}

/// The byte encoded by the two hex digits at `i` and `i + 1`.
pub open spec fn spec_hex_byte(s: Seq<char>, i: int) -> int {
    spec_hex_val(s[i]) * 16 + spec_hex_val(s[i + 1])
}

/// The color a well-formed `#RRGGBB` text denotes.
pub open spec fn spec_hex_color_value(s: Seq<char>) -> Color {
    Color {
        red: spec_hex_byte(s, 1) as u8,
        green: spec_hex_byte(s, 3) as u8,
        blue: spec_hex_byte(s, 5) as u8,
    }
}

/// Decode one hex digit, `None` when the character is no hex digit.
fn hex_digit_val(c: char) -> (r: Option<u8>)
    ensures
        r is Some <==> spec_is_hex_digit(c),
        r matches Some(v) ==> v == spec_hex_val(c) && v < 16,
{
    let v = c as u32;
    if 48 <= v && v <= 57 {
        Some((v - 48) as u8)
    } else if 97 <= v && v <= 102 {
        Some((v - 97 + 10) as u8)
    } else if 65 <= v && v <= 70 {
        Some((v - 65 + 10) as u8)
    } else {
        None
    }
}

/// Parse a `#RRGGBB` text into a color.  Fails exactly on texts that are not
/// a `#` followed by six hex digits.
pub fn parse_hex_color(color: &str) -> (r: Result<Color, DmcError>)
    ensures
        r is Ok <==> spec_hex_color_ok(color@),
        r matches Ok(c) ==> c == spec_hex_color_value(color@),
        r matches Err(e) ==> e matches DmcError::HexColorParseFailed(s) && s@ == color@,
{
    let n = color.unicode_len();
    if n != 7 {
        return Err(DmcError::HexColorParseFailed(String::from_str(color)));
    }
    if color.get_char(0) != '#' {
        return Err(DmcError::HexColorParseFailed(String::from_str(color)));
    }
    let mut digits: [u8; 6] = [0, 0, 0, 0, 0, 0];
    let mut i: usize = 1;
    while i < 7
        invariant
            1 <= i <= 7,
            color@.len() == 7,
            forall|j: int| 1 <= j < i ==> spec_is_hex_digit(#[trigger] color@[j]),
            forall|j: int|
                0 <= j < i - 1 ==> #[trigger] digits@[j] == spec_hex_val(color@[j + 1])
                    && digits@[j] < 16,
        decreases 7 - i,
    {
        match hex_digit_val(color.get_char(i)) {
            Some(v) => {
                digits[i - 1] = v;
            },
            None => {
                return Err(DmcError::HexColorParseFailed(String::from_str(color)));
            },
        }
        i = i + 1;
    }
    Ok(
        Color {
            red: digits[0] * 16 + digits[1],
            green: digits[2] * 16 + digits[3],
            blue: digits[4] * 16 + digits[5],
        },
    )
}

/// A raw entry is acceptable: no field empty and the color text well formed.
pub open spec fn spec_dmc_ok(io: DmcDataIo) -> bool {
    &&& io.name@.len() > 0
    &&& io.code@.len() > 0
    &&& io.color@.len() > 0
    &&& spec_hex_color_ok(io.color@)
}

/// The entry an acceptable raw entry denotes.
pub open spec fn spec_dmc_of(io: DmcDataIo) -> Dmc {
    Dmc { name: io.name, code: io.code, color: spec_hex_color_value(io.color@) }
}

/// The error an unacceptable raw entry is rejected with: corrupt data when a
/// field is empty, otherwise the offending color text.
pub open spec fn spec_dmc_err(io: DmcDataIo, e: DmcError) -> bool {
    if io.name@.len() == 0 || io.code@.len() == 0 || io.color@.len() == 0 {
        e == DmcError::DmcDataCorrupted
    } else {
        e matches DmcError::HexColorParseFailed(s) && s@ == io.color@
    }
}

impl Dmc {
    /// Validate one raw palette entry: every field non-empty and the color
    /// text a well-formed `#RRGGBB`.
    pub fn try_from(value: DmcDataIo) -> (r: Result<Dmc, DmcError>)
        ensures
            r is Ok <==> spec_dmc_ok(value),
            r matches Ok(d) ==> d == spec_dmc_of(value),
            r matches Err(e) ==> spec_dmc_err(value, e),
    {
        if value.code.as_str().is_empty() || value.color.as_str().is_empty()
            || value.name.as_str().is_empty() {
            return Err(DmcError::DmcDataCorrupted);
        }
        let color = match parse_hex_color(value.color.as_str()) {
            Ok(c) => c,
            Err(e) => {
                return Err(e);
            },
        };
        Ok(Dmc { name: value.name, code: value.code, color })
    }
}

/// Names, codes and colors are each unique across the sequence.
pub open spec fn spec_unique_dmcs(s: Seq<Dmc>) -> bool {
    forall|i: int, j: int|
        0 <= i < j < s.len() ==> #[trigger] s[i].name@ != #[trigger] s[j].name@ && s[i].code@
            != s[j].code@ && s[i].color != s[j].color
}

/// The entries a sequence of acceptable raw entries denotes, in order.
pub open spec fn spec_parsed_dmcs(s: Seq<DmcDataIo>) -> Seq<Dmc> {
    s.map_values(|io: DmcDataIo| spec_dmc_of(io))
}

/// Every raw entry is acceptable.
pub open spec fn spec_all_dmc_ok(s: Seq<DmcDataIo>) -> bool {
    forall|i: int| 0 <= i < s.len() ==> spec_dmc_ok(#[trigger] s[i])
}

/// Index of the first unacceptable raw entry.
pub open spec fn spec_first_bad_dmc(s: Seq<DmcDataIo>) -> int
    decreases s.len(),
{
    if s.len() == 0 {
        0
    } else if !spec_dmc_ok(s[0]) {
        0
    } else {
        1 + spec_first_bad_dmc(s.drop_first())
    }
}

/// When everything before `i` is acceptable and `s[i]` is not, `i` is the
/// first unacceptable index.
proof fn lemma_first_bad_dmc(s: Seq<DmcDataIo>, i: int)
    requires
        0 <= i < s.len(),
        forall|j: int| 0 <= j < i ==> spec_dmc_ok(#[trigger] s[j]),
        !spec_dmc_ok(s[i]),
    ensures
        spec_first_bad_dmc(s) == i,
    decreases i,
{
    if i == 0 {
    } else {
        assert(spec_dmc_ok(s[0]));
        lemma_first_bad_dmc(s.drop_first(), i - 1);
    }
}

/// Copy a raw entry; the copy denotes the same entry.
fn clone_dmc_io(io: &DmcDataIo) -> (r: DmcDataIo)
    ensures
        r == *io,
{
    DmcDataIo { name: io.name.clone(), code: io.code.clone(), color: io.color.clone() }
}

/// The reference palette: a non-empty list of DMC entries whose names, codes
/// and colors are each unique.
#[derive(Debug, Clone)]
pub struct PaletteDmc {
    elements: Vec<Dmc>,
}

/// First index among the first `k` colors minimizing the squared distance to
/// `c`; earlier entries win ties.
pub open spec fn spec_nearest_upto(colors: Seq<Color>, c: Color, k: int) -> int
    decreases k,
{
    if k <= 1 {
        0
    } else {
        let prev = spec_nearest_upto(colors, c, k - 1);
        if spec_dist2(colors[k - 1], c) < spec_dist2(colors[prev], c) {
            k - 1
        } else {
            prev
        }
    }
}

/// First index of the whole sequence minimizing the squared distance to `c`.
pub open spec fn spec_nearest(colors: Seq<Color>, c: Color) -> int {
    spec_nearest_upto(colors, c, colors.len() as int)
}

/// The nearest index is in range, minimizes the distance, and is the first
/// index doing so.
pub proof fn lemma_nearest_upto_props(colors: Seq<Color>, c: Color, k: int)
    requires
        1 <= k <= colors.len(),
    ensures
        0 <= spec_nearest_upto(colors, c, k) < k,
        forall|j: int|
            0 <= j < k ==> spec_dist2(colors[spec_nearest_upto(colors, c, k)], c) <= spec_dist2(
                #[trigger] colors[j],
                c,
            ),
        forall|j: int|
            0 <= j < spec_nearest_upto(colors, c, k) ==> spec_dist2(#[trigger] colors[j], c)
                > spec_dist2(colors[spec_nearest_upto(colors, c, k)], c),
    decreases k,
{
    if k > 1 {
        lemma_nearest_upto_props(colors, c, k - 1);
    }
}

/// The same, of the nearest index over the whole sequence.
pub proof fn lemma_nearest_props(colors: Seq<Color>, c: Color)
    requires
        colors.len() > 0,
    ensures
        0 <= spec_nearest(colors, c) < colors.len(),
        forall|j: int|
            0 <= j < colors.len() ==> spec_dist2(colors[spec_nearest(colors, c)], c) <= spec_dist2(
                #[trigger] colors[j],
                c,
            ),
{
    lemma_nearest_upto_props(colors, c, colors.len() as int);
}

impl PaletteDmc {
    pub closed spec fn spec_elements(&self) -> Seq<Dmc> {
        self.elements@
    }

    /// The palette's colors, in entry order.
    pub open spec fn spec_colors(&self) -> Seq<Color> {
        self.spec_elements().map_values(|d: Dmc| d.color)
    }

    /// Names, codes and colors each unique.
    pub open spec fn wf(&self) -> bool {
        spec_unique_dmcs(self.spec_elements())
    }

    pub fn len(&self) -> (n: usize)
        ensures
            n == self.spec_elements().len(),
    {
        self.elements.len()
    }

    pub fn get(&self, i: usize) -> (d: &Dmc)
        requires
            i < self.spec_elements().len(),
        ensures
            *d == self.spec_elements()[i as int],
    {
        &self.elements[i]
    }

    /// Validate a raw palette: every entry must parse and names, codes and
    /// colors must each be unique.  The first parse failure is reported;
    /// otherwise a duplicate is reported as non-unique data.
    pub fn try_from(value: PaletteDmcDataIo) -> (r: Result<PaletteDmc, DmcError>)
        ensures
            r is Ok <==> spec_all_dmc_ok(value.0@) && spec_unique_dmcs(spec_parsed_dmcs(value.0@)),
            r matches Ok(p) ==> p.spec_elements() == spec_parsed_dmcs(value.0@) && p.wf(),
            r matches Err(e) ==> (if spec_all_dmc_ok(value.0@) {
                e == DmcError::DmcDataNotUnique
            } else {
                spec_dmc_err(value.0@[spec_first_bad_dmc(value.0@)], e)
            }),
    {
        let ghost raws = value.0@;
        let n = value.0.len();
        let mut parsed: Vec<Dmc> = Vec::new();
        let mut i: usize = 0;
        while i < n
            invariant
                0 <= i <= n,
                n == raws.len(),
                value.0@ == raws,
                parsed@.len() == i,
                forall|j: int| 0 <= j < i ==> spec_dmc_ok(#[trigger] raws[j]),
                forall|j: int| 0 <= j < i ==> parsed@[j] == spec_dmc_of(#[trigger] raws[j]),
            decreases n - i,
        {
            let io = clone_dmc_io(&value.0[i]);
            assert(io == raws[i as int]);
            match Dmc::try_from(io) {
                Ok(d) => {
                    parsed.push(d);
                },
                Err(e) => {
                    proof {
                        lemma_first_bad_dmc(raws, i as int);
                    }
                    return Err(e);
                },
            }
            i = i + 1;
        }
        let mut i: usize = 1;
        while i < n
            invariant
                1 <= i <= n || (n == 0 && i == 1),
                n == raws.len(),
                value.0@ == raws,
                parsed@.len() == n,
                forall|j: int| 0 <= j < n ==> spec_dmc_ok(#[trigger] raws[j]),
                forall|j: int| 0 <= j < n ==> parsed@[j] == spec_dmc_of(#[trigger] raws[j]),
                forall|p: int, q: int|
                    0 <= p < q < i && q < n ==> #[trigger] parsed@[p].name@
                        != #[trigger] parsed@[q].name@,
                forall|p: int, q: int|
                    0 <= p < q < i && q < n ==> #[trigger] parsed@[p].code@
                        != #[trigger] parsed@[q].code@,
                forall|p: int, q: int|
                    0 <= p < q < i && q < n ==> #[trigger] parsed@[p].color
                        != #[trigger] parsed@[q].color,
            decreases n - i,
        {
            let mut j: usize = 0;
            while j < i
                invariant
                    0 <= j <= i < n,
                    n == raws.len(),
                    value.0@ == raws,
                    parsed@.len() == n,
                    forall|k: int| 0 <= k < n ==> spec_dmc_ok(#[trigger] raws[k]),
                    forall|k: int| 0 <= k < n ==> parsed@[k] == spec_dmc_of(#[trigger] raws[k]),
                    forall|q: int| 0 <= q < j ==> #[trigger] parsed@[q].name@ != parsed@[i as int].name@,
                    forall|q: int| 0 <= q < j ==> #[trigger] parsed@[q].code@ != parsed@[i as int].code@,
                    forall|q: int| 0 <= q < j ==> #[trigger] parsed@[q].color != parsed@[i as int].color,
                decreases i - j,
            {
                let dup = {
                    let a = &parsed[j];
                    let b = &parsed[i];
                    a.name == b.name || a.code == b.code || a.color == b.color
                };
                if dup {
                    proof {
                        assert(parsed@ =~= spec_parsed_dmcs(raws));
                        let pj = parsed@[j as int];
                        let pi = parsed@[i as int];
                        assert(pj.name@ == pi.name@ || pj.code@ == pi.code@ || pj.color
                            == pi.color);
                        assert(!spec_unique_dmcs(parsed@));
                    }
                    return Err(DmcError::DmcDataNotUnique);
                }
                j = j + 1;
            }
            proof {
                assert forall|p: int, q: int| 0 <= p < q < i + 1 && q < n implies #[trigger] parsed@[p].name@
                    != #[trigger] parsed@[q].name@ by {
                    if q == i {
                        assert(parsed@[p].name@ != parsed@[i as int].name@);
                    }
                }
                assert forall|p: int, q: int| 0 <= p < q < i + 1 && q < n implies #[trigger] parsed@[p].code@
                    != #[trigger] parsed@[q].code@ by {
                    if q == i {
                        assert(parsed@[p].code@ != parsed@[i as int].code@);
                    }
                }
                assert forall|p: int, q: int| 0 <= p < q < i + 1 && q < n implies #[trigger] parsed@[p].color
                    != #[trigger] parsed@[q].color by {
                    if q == i {
                        assert(parsed@[p].color != parsed@[i as int].color);
                    }
                }
            }
            i = i + 1;
        }
        assert(spec_unique_dmcs(parsed@));
        assert(parsed@ =~= spec_parsed_dmcs(raws));
        Ok(PaletteDmc { elements: parsed })
    }

    /// The palette entry whose color is nearest to `random_color` in squared
    /// channel distance; the first entry wins ties.
    pub fn find_closest_dmc(&self, random_color: Color) -> (d: &Dmc)
        requires
            self.spec_elements().len() > 0,
        ensures
            *d == self.spec_elements()[spec_nearest(self.spec_colors(), random_color)],
    {
        let idx = self.find_closest_idx(random_color);
        &self.elements[idx]
    }

    /// Index form of the nearest lookup.
    pub fn find_closest_idx(&self, random_color: Color) -> (r: usize)
        requires
            self.spec_elements().len() > 0,
        ensures
            r == spec_nearest(self.spec_colors(), random_color),
            r < self.spec_elements().len(),
    {
        let n = self.elements.len();
        let ghost colors = self.spec_colors();
        let mut best: usize = 0;
        let mut best_dist: i64 = self.elements[0].color.dist2(&random_color);
        let mut i: usize = 1;
        while i < n
            invariant
                1 <= i <= n,
                best < i,
                n == self.spec_elements().len(),
                colors == self.spec_colors(),
                colors.len() == n,
                best == spec_nearest_upto(colors, random_color, i as int),
                best_dist == spec_dist2(colors[best as int], random_color),
            decreases n - i,
        {
            let d = self.elements[i].color.dist2(&random_color);
            assert(colors[i as int] == self.spec_elements()[i as int].color);
            if d < best_dist {
                best = i;
                best_dist = d;
            }
            i = i + 1;
        }
        proof {
            lemma_nearest_upto_props(colors, random_color, n as int);
        }
        best
    }
}

/// One line of a bill of materials: a DMC entry and how many pixels it
/// covers.
#[derive(Debug, Clone, PartialEq, Eq)]
pub struct BomEntry {
    pub dmc: Dmc,
    pub count: u64,
}

/// A bill of materials: DMC entries with positive pixel counts.
pub type DmcBom = Vec<BomEntry>;

/// How many of the pixels have `colors[i]` as their nearest palette color.
pub open spec fn spec_count_assigned(pixels: Seq<Color>, colors: Seq<Color>, i: int) -> nat
    decreases pixels.len(),
{
    if pixels.len() == 0 {
        0
    } else {
        spec_count_assigned(pixels.drop_last(), colors, i) + (
        if spec_nearest(colors, pixels.last()) == i {
            1nat
        } else {
            0nat
        })
    }
}

/// How many of the pixels match no palette color exactly.
pub open spec fn spec_count_unmapped(pixels: Seq<Color>, colors: Seq<Color>) -> nat
    decreases pixels.len(),
{
    if pixels.len() == 0 {
        0
    } else {
        spec_count_unmapped(pixels.drop_last(), colors) + (
        if colors.contains(pixels.last()) {
            0nat
        } else {
            1nat
        })
    }
}

/// The per-entry pixel counts of a palette over an image.
pub open spec fn spec_bom_counts(pixels: Seq<Color>, colors: Seq<Color>) -> Seq<u64> {
    Seq::new(colors.len(), |i: int| spec_count_assigned(pixels, colors, i) as u64)
}

/// Sum of a sequence of integers.
pub open spec fn spec_sum(s: Seq<int>) -> int
    decreases s.len(),
{
    if s.len() == 0 {
        0
    } else {
        spec_sum(s.drop_last()) + s.last()
    }
}

/// Sum of the counts of a bill of materials.
pub open spec fn spec_sum_bom(s: Seq<BomEntry>) -> int
    decreases s.len(),
{
    if s.len() == 0 {
        0
    } else {
        spec_sum_bom(s.drop_last()) + s.last().count
    }
}

/// A sequence of zeros sums to zero.
proof fn lemma_sum_zero(s: Seq<int>)
    requires
        forall|i: int| 0 <= i < s.len() ==> s[i] == 0,
    ensures
        spec_sum(s) == 0,
    decreases s.len(),
{
    if s.len() > 0 {
        lemma_sum_zero(s.drop_last());
    }
}

/// Adding `d` to one element adds `d` to the sum.
proof fn lemma_sum_update(s: Seq<int>, r: int, d: int)
    requires
        0 <= r < s.len(),
    ensures
        spec_sum(s.update(r, s[r] + d)) == spec_sum(s) + d,
    decreases s.len(),
{
    let t = s.update(r, s[r] + d);
    if r == s.len() - 1 {
        assert(t.drop_last() =~= s.drop_last());
    } else {
        assert(t.drop_last() =~= s.drop_last().update(r, s[r] + d));
        lemma_sum_update(s.drop_last(), r, d);
    }
}

/// A count never exceeds the number of pixels.
proof fn lemma_count_assigned_le(pixels: Seq<Color>, colors: Seq<Color>, i: int)
    ensures
        spec_count_assigned(pixels, colors, i) <= pixels.len(),
    decreases pixels.len(),
{
    if pixels.len() > 0 {
        lemma_count_assigned_le(pixels.drop_last(), colors, i);
    }
}

/// Every pixel is assigned to exactly one palette entry, so the per-entry
/// counts sum to the number of pixels.
pub proof fn lemma_bom_total(pixels: Seq<Color>, colors: Seq<Color>)
    requires
        colors.len() > 0,
    ensures
        spec_sum(Seq::new(colors.len(), |i: int| spec_count_assigned(pixels, colors, i) as int))
            == pixels.len(),
    decreases pixels.len(),
{
    let cs = Seq::new(colors.len(), |i: int| spec_count_assigned(pixels, colors, i) as int);
    if pixels.len() == 0 {
        lemma_sum_zero(cs);
    } else {
        let pre = pixels.drop_last();
        let p = pixels.last();
        let pcs = Seq::new(colors.len(), |i: int| spec_count_assigned(pre, colors, i) as int);
        lemma_bom_total(pre, colors);
        let r = spec_nearest(colors, p);
        lemma_nearest_props(colors, p);
        assert(cs =~= pcs.update(r, pcs[r] + 1));
        lemma_sum_update(pcs, r, 1);
    }
}

/// A pixel matches some palette color exactly if and only if its nearest
/// palette color is at distance zero.
pub proof fn lemma_nearest_exact(colors: Seq<Color>, c: Color)
    requires
        colors.len() > 0,
    ensures
        colors.contains(c) <==> spec_dist2(colors[spec_nearest(colors, c)], c) == 0,
{
    let r = spec_nearest(colors, c);
    lemma_nearest_props(colors, c);
    if colors.contains(c) {
        let j = choose|j: int| 0 <= j < colors.len() && colors[j] == c;
        crate::color::lemma_dist2_zero(colors[j], c);
        crate::color::lemma_dist2_zero(colors[r], c);
        assert(spec_dist2(colors[r], c) <= spec_dist2(colors[j], c));
        crate::color::lemma_square_bound((colors[r].red - c.red) as int, 255);
        crate::color::lemma_square_bound((colors[r].green - c.green) as int, 255);
        crate::color::lemma_square_bound((colors[r].blue - c.blue) as int, 255);
    }
    if spec_dist2(colors[r], c) == 0 {
        crate::color::lemma_dist2_zero(colors[r], c);
        assert(colors[r] == c);
    }
}

/// Copy a palette entry; the copy denotes the same entry.
fn clone_dmc(d: &Dmc) -> (r: Dmc)
    ensures
        r == *d,
{
    Dmc { name: d.name.clone(), code: d.code.clone(), color: d.color }
}

/// The bill-of-materials lines for the first `k` palette entries: one line
/// per entry with a positive count, in palette order.
pub open spec fn spec_bom_pairs_upto(counts: Seq<u64>, dmcs: Seq<Dmc>, k: int) -> Seq<BomEntry>
    decreases k,
{
    if k <= 0 {
        Seq::empty()
    } else {
        let pre = spec_bom_pairs_upto(counts, dmcs, k - 1);
        if counts[k - 1] > 0 {
            pre.push(BomEntry { dmc: dmcs[k - 1], count: counts[k - 1] })
        } else {
            pre
        }
    }
}

/// The bill-of-materials lines of a whole palette.
pub open spec fn spec_bom_pairs(counts: Seq<u64>, dmcs: Seq<Dmc>) -> Seq<BomEntry> {
    spec_bom_pairs_upto(counts, dmcs, dmcs.len() as int)
}

/// Sum of a prefix of counts, as integers.
spec fn spec_sum_counts_upto(counts: Seq<u64>, k: int) -> int
    decreases k,
{
    if k <= 0 {
        0
    } else {
        spec_sum_counts_upto(counts, k - 1) + counts[k - 1]
    }
}

/// Dropping the zero counts does not change the sum.
proof fn lemma_bom_pairs_sum(counts: Seq<u64>, dmcs: Seq<Dmc>, k: int)
    requires
        0 <= k <= counts.len(),
    ensures
        spec_sum_bom(spec_bom_pairs_upto(counts, dmcs, k)) == spec_sum_counts_upto(counts, k),
    decreases k,
{
    if k > 0 {
        lemma_bom_pairs_sum(counts, dmcs, k - 1);
        let pre = spec_bom_pairs_upto(counts, dmcs, k - 1);
        if counts[k - 1] > 0 {
            let e = BomEntry { dmc: dmcs[k - 1], count: counts[k - 1] };
            assert(pre.push(e).drop_last() =~= pre);
            assert(pre.push(e).last() == e);
        }
    }
}

/// Every line of a bill of materials carries a positive count.
pub proof fn lemma_bom_pairs_positive(counts: Seq<u64>, dmcs: Seq<Dmc>, k: int)
    ensures
        forall|i: int|
            0 <= i < spec_bom_pairs_upto(counts, dmcs, k).len() ==> (#[trigger] spec_bom_pairs_upto(
                counts,
                dmcs,
                k,
            )[i]).count > 0,
    decreases k,
{
    if k > 0 {
        lemma_bom_pairs_positive(counts, dmcs, k - 1);
        let pre = spec_bom_pairs_upto(counts, dmcs, k - 1);
        let cur = spec_bom_pairs_upto(counts, dmcs, k);
        assert forall|i: int| 0 <= i < cur.len() implies (#[trigger] cur[i]).count > 0 by {
            if i < pre.len() {
                assert(cur[i] == pre[i]);
            }
        }
    }
}

/// The two prefix sums agree when the counts agree pointwise.
proof fn lemma_sum_counts_eq(counts: Seq<u64>, s: Seq<int>, k: int)
    requires
        0 <= k <= counts.len(),
        k <= s.len(),
        forall|i: int| 0 <= i < k ==> #[trigger] s[i] == counts[i],
        s.len() == k,
    ensures
        spec_sum_counts_upto(counts, k) == spec_sum(s),
    decreases k,
{
    if k > 0 {
        lemma_sum_counts_eq(counts, s.drop_last(), k - 1);
    }
}

impl PaletteDmc {
    /// Count, for every palette entry, the pixels of `image` whose nearest
    /// palette color it is, and the pixels matching no palette color exactly.
    pub fn bom_counts_of_image(&self, image: &Img) -> (r: (Vec<u64>, u64))
        requires
            self.spec_elements().len() > 0,
            image.wf(),
        ensures
            r.0@ == spec_bom_counts(image.spec_pixels(), self.spec_colors()),
            r.1 == spec_count_unmapped(image.spec_pixels(), self.spec_colors()),
    {
        let ghost colors = self.spec_colors();
        let ghost pixels = image.spec_pixels();
        let n = self.elements.len();
        let total = image.pixel_count();
        let mut counts: Vec<u64> = Vec::new();
        let mut z: usize = 0;
        while z < n
            invariant
                z <= n,
                counts@.len() == z,
                forall|i: int| 0 <= i < z ==> counts@[i] == 0,
            decreases n - z,
        {
            counts.push(0);
            z = z + 1;
        }
        let mut unmapped: u64 = 0;
        let mut k: usize = 0;
        proof {
            assert(pixels.take(0) =~= Seq::<Color>::empty());
        }
        while k < total
            invariant
                k <= total,
                n == self.spec_elements().len(),
                n > 0,
                image.wf(),
                colors == self.spec_colors(),
                pixels == image.spec_pixels(),
                colors.len() == n,
                total == pixels.len(),
                counts@.len() == n,
                forall|i: int|
                    0 <= i < n ==> #[trigger] counts@[i] == spec_count_assigned(
                        pixels.take(k as int),
                        colors,
                        i,
                    ),
                unmapped == spec_count_unmapped(pixels.take(k as int), colors),
            decreases total - k,
        {
            let px = image.pixel(k);
            let idx = self.find_closest_idx(px);
            proof {
                lemma_count_assigned_le(pixels.take(k as int), colors, idx as int);
                assert(pixels.take(k + 1).drop_last() =~= pixels.take(k as int));
                assert(pixels.take(k + 1).last() == px);
            }
            let c = counts[idx];
            counts.set(idx, c + 1);
            let d = self.elements[idx].color.dist2(&px);
            proof {
                assert(colors[idx as int] == self.spec_elements()[idx as int].color);
                lemma_nearest_exact(colors, px);
                crate::color::lemma_dist2_nonneg(colors[idx as int], px);
                lemma_count_unmapped_le(pixels.take(k as int), colors);
            }
            if d != 0 {
                unmapped = unmapped + 1;
            }
            proof {
                assert forall|i: int| 0 <= i < n implies #[trigger] counts@[i]
                    == spec_count_assigned(pixels.take(k + 1), colors, i) by {
                    assert(spec_count_assigned(pixels.take(k + 1), colors, i)
                        == spec_count_assigned(pixels.take(k as int), colors, i) + (
                    if spec_nearest(colors, px) == i {
                        1nat
                    } else {
                        0nat
                    }));
                }
            }
            k = k + 1;
        }
        proof {
            assert(pixels.take(total as int) =~= pixels);
            assert(counts@ =~= spec_bom_counts(pixels, colors));
        }
        (counts, unmapped)
    }

    /// The bill of materials of an image against this palette: every pixel
    /// charged to its nearest entry, entries with no pixels left out.  Also
    /// returns how many pixels matched no palette color exactly.  The counts
    /// of the lines sum to the image's pixel count.
    pub fn find_bom_of_image(&self, image: &Img) -> (r: (DmcBom, u64))
        requires
            self.spec_elements().len() > 0,
            image.wf(),
        ensures
            r.0@ == spec_bom_pairs(
                spec_bom_counts(image.spec_pixels(), self.spec_colors()),
                self.spec_elements(),
            ),
            r.1 == spec_count_unmapped(image.spec_pixels(), self.spec_colors()),
            spec_sum_bom(r.0@) == image.spec_pixels().len(),
            forall|i: int| 0 <= i < r.0@.len() ==> (#[trigger] r.0@[i]).count > 0,
    {
        let ghost colors = self.spec_colors();
        let ghost pixels = image.spec_pixels();
        let total = image.pixel_count();
        let (counts, unmapped) = self.bom_counts_of_image(image);
        let n = self.elements.len();
        let mut bom: Vec<BomEntry> = Vec::new();
        let mut k: usize = 0;
        while k < n
            invariant
                k <= n,
                n == self.spec_elements().len(),
                counts@.len() == n,
                counts@ == spec_bom_counts(pixels, colors),
                bom@ == spec_bom_pairs_upto(counts@, self.spec_elements(), k as int),
            decreases n - k,
        {
            let c = counts[k];
            if c > 0 {
                let dmc = clone_dmc(&self.elements[k]);
                bom.push(BomEntry { dmc, count: c });
            }
            k = k + 1;
        }
        proof {
            lemma_bom_pairs_sum(counts@, self.spec_elements(), n as int);
            let cs = Seq::new(
                colors.len(),
                |i: int| spec_count_assigned(pixels, colors, i) as int,
            );
            assert forall|i: int| 0 <= i < n implies #[trigger] cs[i] == counts@[i] by {
                lemma_count_assigned_le(pixels, colors, i);
                assert(spec_count_assigned(pixels, colors, i) <= total);
            }
            lemma_sum_counts_eq(counts@, cs, n as int);
            lemma_bom_total(pixels, colors);
            lemma_bom_pairs_positive(counts@, self.spec_elements(), n as int);
        }
        (bom, unmapped)
    }
}

/// A count of unmapped pixels never exceeds the number of pixels.
proof fn lemma_count_unmapped_le(pixels: Seq<Color>, colors: Seq<Color>)
    ensures
        spec_count_unmapped(pixels, colors) <= pixels.len(),
    decreases pixels.len(),
{
    if pixels.len() > 0 {
        lemma_count_unmapped_le(pixels.drop_last(), colors);
    }
}

/// Counts never increase along the sequence.
pub open spec fn spec_sorted_desc(s: Seq<BomEntry>) -> bool {
    forall|p: int, q: int|
        0 <= p < q < s.len() ==> (#[trigger] s[p]).count >= (#[trigger] s[q]).count
}

/// Insert a line into a sequence sorted by descending count, scanning from
/// the back; a line never moves ahead of one with the same count.
pub open spec fn spec_insert_desc(s: Seq<BomEntry>, e: BomEntry) -> Seq<BomEntry>
    decreases s.len(),
{
    if s.len() == 0 {
        seq![e]
    } else if e.count <= s.last().count {
        s.push(e)
    } else {
        spec_insert_desc(s.drop_last(), e).push(s.last())
    }
}

/// Insertion sort by descending count; stable, so ties keep palette order.
pub open spec fn spec_sort_desc(s: Seq<BomEntry>) -> Seq<BomEntry>
    decreases s.len(),
{
    if s.len() == 0 {
        Seq::empty()
    } else {
        spec_insert_desc(spec_sort_desc(s.drop_last()), s.last())
    }
}

/// Inserting keeps the lines (as a multiset), adds one to the length, and
/// preserves descending order.
pub proof fn lemma_insert_desc_props(s: Seq<BomEntry>, e: BomEntry)
    requires
        spec_sorted_desc(s),
    ensures
        spec_insert_desc(s, e).len() == s.len() + 1,
        spec_insert_desc(s, e).to_multiset() == s.to_multiset().insert(e),
        spec_sorted_desc(spec_insert_desc(s, e)),
    decreases s.len(),
{
    broadcast use vstd::seq_lib::group_to_multiset_ensures;

    let r = spec_insert_desc(s, e);
    if s.len() == 0 {
        assert(r =~= Seq::empty().push(e));
        assert(r.to_multiset() =~= s.to_multiset().insert(e));
    } else if e.count <= s.last().count {
        assert(forall|p: int| 0 <= p < s.len() ==> (#[trigger] s[p]).count >= s.last().count);
        assert(spec_sorted_desc(r));
    } else {
        let pre = s.drop_last();
        assert(spec_sorted_desc(pre));
        lemma_insert_desc_props(pre, e);
        let q = spec_insert_desc(pre, e);
        assert(r == q.push(s.last()));
        assert(pre.push(s.last()) =~= s);
        assert(r.to_multiset() =~= s.to_multiset().insert(e));
        // every line of q weighs at least as much as the displaced last line
        assert forall|p: int| 0 <= p < q.len() implies (#[trigger] q[p]).count >= s.last().count
            by {
            assert(q.to_multiset().count(q[p]) > 0);
            if pre.to_multiset().count(q[p]) > 0 {
                assert(pre.contains(q[p]));
            }
        }
        assert(spec_sorted_desc(r));
    }
}

/// Sorting keeps the lines (as a multiset), keeps the length, and yields
/// descending order.
pub proof fn lemma_sort_desc_props(s: Seq<BomEntry>)
    ensures
        spec_sort_desc(s).len() == s.len(),
        spec_sort_desc(s).to_multiset() == s.to_multiset(),
        spec_sorted_desc(spec_sort_desc(s)),
    decreases s.len(),
{
    broadcast use vstd::seq_lib::group_to_multiset_ensures;

    if s.len() == 0 {
        assert(spec_sort_desc(s).to_multiset() =~= s.to_multiset());
    } else {
        let pre = s.drop_last();
        lemma_sort_desc_props(pre);
        lemma_insert_desc_props(spec_sort_desc(pre), s.last());
        assert(pre.push(s.last()) =~= s);
        assert(spec_sort_desc(s).to_multiset() =~= s.to_multiset());
    }
}

/// A cap of at least the number of lines keeps the whole bill of materials:
/// the capped result is the sorted whole, with the same lines.
pub proof fn lemma_bom_cap_full(s: Seq<BomEntry>, k: int)
    requires
        k >= s.len(),
    ensures
        spec_sort_desc(s).take(if k < s.len() {
            k
        } else {
            s.len() as int
        }) == spec_sort_desc(s),
        spec_sort_desc(s).take(if k < s.len() {
            k
        } else {
            s.len() as int
        }).to_multiset() == s.to_multiset(),
{
    lemma_sort_desc_props(s);
    assert(spec_sort_desc(s).take(s.len() as int) =~= spec_sort_desc(s));
}

/// Insert a line into a vector sorted by descending count.
fn insert_bom_desc(v: Vec<BomEntry>, e: BomEntry) -> (r: Vec<BomEntry>)
    ensures
        r@ == spec_insert_desc(v@, e),
    decreases v@.len(),
{
    let ghost s = v@;
    let mut v = v;
    match v.pop() {
        None => {
            v.push(e);
            proof {
                assert(v@ =~= seq![e]);
            }
            v
        },
        Some(last) => {
            if e.count <= last.count {
                v.push(last);
                v.push(e);
                proof {
                    assert(s.drop_last().push(s.last()) =~= s);
                }
                v
            } else {
                let mut r = insert_bom_desc(v, e);
                r.push(last);
                r
            }
        },
    }
}

/// Sort a bill of materials by descending count; stable, so ties keep the
/// incoming order.
fn sort_bom_desc(v: Vec<BomEntry>) -> (r: Vec<BomEntry>)
    ensures
        r@ == spec_sort_desc(v@),
{
    let ghost orig = v@;
    let mut v = v;
    let n = v.len();
    let mut acc: Vec<BomEntry> = Vec::new();
    let mut k: usize = 0;
    proof {
        assert(orig.take(0) =~= Seq::<BomEntry>::empty());
    }
    while k < n
        invariant
            k <= n,
            n == orig.len(),
            v@ == orig.skip(k as int),
            acc@ == spec_sort_desc(orig.take(k as int)),
        decreases n - k,
    {
        let e = v.remove(0);
        assert(e == orig[k as int]);
        proof {
            assert(v@ =~= orig.skip(k + 1));
        }
        acc = insert_bom_desc(acc, e);
        proof {
            assert(orig.take(k + 1).drop_last() =~= orig.take(k as int));
            assert(orig.take(k + 1).last() == orig[k as int]);
        }
        k = k + 1;
    }
    proof {
        assert(orig.take(n as int) =~= orig);
    }
    acc
}

impl PaletteDmc {
    /// The bill of materials of an image, optionally capped to the
    /// `max_count` most frequent entries.  The capped form is sorted by
    /// descending count; ties keep palette order.
    pub fn find_subset_matching_image(&self, image: &Img, max_count: Option<usize>) -> (r: DmcBom)
        requires
            self.spec_elements().len() > 0,
            image.wf(),
        ensures
            ({
                let full = spec_bom_pairs(
                    spec_bom_counts(image.spec_pixels(), self.spec_colors()),
                    self.spec_elements(),
                );
                match max_count {
                    Option::None => r@ == full,
                    Option::Some(k) => r@ == spec_sort_desc(full).take(
                        if (k as int) < full.len() {
                            k as int
                        } else {
                            full.len() as int
                        },
                    ),
                }
            }),
    {
        let (bom, _unmapped) = self.find_bom_of_image(image);
        match max_count {
            Option::None => bom,
            Option::Some(k) => {
                let ghost full = bom@;
                let mut sorted = sort_bom_desc(bom);
                proof {
                    lemma_sort_desc_props(full);
                }
                if k < sorted.len() {
                    sorted.truncate(k);
                } else {
                    proof {
                        assert(sorted@.take(sorted@.len() as int) =~= sorted@);
                    }
                }
                sorted
            },
        }
    }

    /// The palette's colors alone, for the dithering kernel.
    pub fn downgrade_to_srgb_palette(&self) -> (p: crate::color::Palette)
        ensures
            p.colors@ == self.spec_colors(),
    {
        let n = self.elements.len();
        let mut colors: Vec<Color> = Vec::new();
        let mut i: usize = 0;
        while i < n
            invariant
                i <= n,
                n == self.spec_elements().len(),
                colors@.len() == i,
                forall|j: int| 0 <= j < i ==> colors@[j] == self.spec_elements()[j].color,
            decreases n - i,
        {
            colors.push(self.elements[i].color);
            i = i + 1;
        }
        proof {
            assert(colors@ =~= self.spec_colors());
        }
        crate::color::Palette { colors }
    }
}

} // verus!
