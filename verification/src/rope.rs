//! The text buffer of the editor: UTF-8 text addressed by byte offsets and
//! by (row, byte column) points.
//!
//! Rows are separated by `\n`; a row's length does not count its line
//! break. Points and offsets outside the text are clipped to it: a row past
//! the last one means the end of the text, and a column past the end of its
//! row means the end of that row.

use vstd::prelude::*;
use vstd::utf8::*;

use std::ops::Range;

use crate::point::{OffsetUtf16, Point};

verus! {

broadcast use vstd::utf8::group_utf8_lib;

/// The byte of a line break.
pub const NEWLINE: u8 = 10u8;

/// The first line break at or after `i`, or the end of the text.
pub open spec fn next_newline(b: Seq<u8>, i: nat) -> nat
    decreases b.len() - i,
{
    if i >= b.len() {
        b.len()
    } else if b[i as int] == NEWLINE {
        i
    } else {
        next_newline(b, i + 1)
    }
}

/// The number of line breaks among the first `n` bytes.
pub open spec fn count_newlines(b: Seq<u8>, n: nat) -> nat
    decreases n,
{
    if n == 0 {
        0
    } else {
        count_newlines(b, (n - 1) as nat) + if b[n - 1] == NEWLINE {
            1nat
        } else {
            0nat
        }
    }
}

/// The offset where row `row` starts.
pub open spec fn line_start(b: Seq<u8>, row: nat) -> nat
    decreases row,
{
    if row == 0 {
        0
    } else {
        next_newline(b, line_start(b, (row - 1) as nat)) + 1
    }
}

/// The start of the row that holds offset `off`: just after the last line
/// break before it.
pub open spec fn start_of_row_at(b: Seq<u8>, off: nat) -> nat
    decreases off,
{
    if off == 0 {
        0
    } else if b[off - 1] == NEWLINE {
        off
    } else {
        start_of_row_at(b, (off - 1) as nat)
    }
}

/// The number of the last row.
pub open spec fn max_row(b: Seq<u8>) -> nat {
    count_newlines(b, b.len())
}

/// The length in bytes of row `row` (clipped to the last row), without its
/// line break.
pub open spec fn line_len(b: Seq<u8>, row: nat) -> nat {
    let r = if row > max_row(b) {
        max_row(b)
    } else {
        row
    };
    (next_newline(b, line_start(b, r)) - line_start(b, r)) as nat
}

/// The offset of a point, clipped to the text.
pub open spec fn point_to_offset(b: Seq<u8>, p: Point) -> nat {
    if p.row > max_row(b) {
        b.len()
    } else {
        let s = line_start(b, p.row as nat);
        let e = next_newline(b, s);
        if p.column <= e - s {
            s + p.column as nat
        } else {
            e
        }
    }
}

/// The point of an offset, clipped to the text.
pub open spec fn offset_to_point(b: Seq<u8>, off: nat) -> Point {
    let o = if off > b.len() {
        b.len()
    } else {
        off
    };
    Point { row: count_newlines(b, o) as u32, column: (o - start_of_row_at(b, o)) as u32 }
}

/// The largest character boundary at or before `j`.
pub open spec fn floor_from(b: Seq<u8>, j: nat) -> nat
    decreases j,
{
    if j == 0 || is_char_boundary(b, j as int) {
        j
    } else {
        floor_from(b, (j - 1) as nat)
    }
}

/// The largest character boundary at or before `i`, and not past the end.
pub open spec fn floor_boundary(b: Seq<u8>, i: nat) -> nat {
    floor_from(b, if i > b.len() { b.len() } else { i })
}

/// The smallest character boundary at or after `j` (the end when `j` is past it).
pub open spec fn ceil_from(b: Seq<u8>, j: nat) -> nat
    decreases b.len() - j,
{
    if j >= b.len() {
        b.len()
    } else if is_char_boundary(b, j as int) {
        j
    } else {
        ceil_from(b, j + 1)
    }
}

/// The largest character boundary at or before `i` (and not past the end).
pub open spec fn is_floor_boundary(b: Seq<u8>, i: int, r: int) -> bool {
    &&& 0 <= r <= b.len()
    &&& r <= i
    &&& is_char_boundary(b, r)
    &&& forall|k: int| r < k <= i && k <= b.len() ==> !is_char_boundary(b, k)
}

/// The smallest character boundary at or after `i` (the end when `i` is past it).
pub open spec fn is_ceil_boundary(b: Seq<u8>, i: int, r: int) -> bool {
    &&& 0 <= r <= b.len()
    &&& (i <= b.len() ==> r >= i)
    &&& (i > b.len() ==> r == b.len())
    &&& is_char_boundary(b, r)
    &&& forall|k: int| i <= k < r ==> !is_char_boundary(b, k)
}

// ---- facts about rows ----

pub proof fn lemma_next_newline(b: Seq<u8>, i: nat)
    requires
        i <= b.len(),
    ensures
        i <= next_newline(b, i) <= b.len(),
        forall|k: int| i <= k < next_newline(b, i) ==> b[k] != NEWLINE,
        next_newline(b, i) < b.len() ==> b[next_newline(b, i) as int] == NEWLINE,
    decreases b.len() - i,
{
    if i < b.len() && b[i as int] != NEWLINE {
        lemma_next_newline(b, i + 1);
    }
}

proof fn lemma_next_newline_at(b: Seq<u8>, i: nat, j: nat)
    requires
        i <= j <= b.len(),
        forall|k: int| i <= k < j ==> b[k] != NEWLINE,
        j == b.len() || b[j as int] == NEWLINE,
    ensures
        next_newline(b, i) == j,
    decreases j - i,
{
    if i < j {
        lemma_next_newline_at(b, i + 1, j);
    }
}

proof fn lemma_count_flat(b: Seq<u8>, a: nat, c: nat)
    requires
        a <= c <= b.len(),
        forall|k: int| a <= k < c ==> b[k] != NEWLINE,
    ensures
        count_newlines(b, c) == count_newlines(b, a),
    decreases c - a,
{
    if a < c {
        lemma_count_flat(b, a, (c - 1) as nat);
    }
}

pub proof fn lemma_count_mono(b: Seq<u8>, a: nat, c: nat)
    requires
        a <= c <= b.len(),
    ensures
        count_newlines(b, a) <= count_newlines(b, c),
        count_newlines(b, c) <= count_newlines(b, a) + (c - a),
    decreases c - a,
{
    if a < c {
        lemma_count_mono(b, a, (c - 1) as nat);
    }
}

pub proof fn lemma_line_start(b: Seq<u8>, r: nat)
    requires
        r <= max_row(b),
    ensures
        line_start(b, r) <= b.len(),
        count_newlines(b, line_start(b, r)) == r,
        r > 0 ==> b[line_start(b, r) - 1] == NEWLINE,
        r < max_row(b) ==> next_newline(b, line_start(b, r)) < b.len(),
    decreases r,
{
    if r > 0 {
        let p = line_start(b, (r - 1) as nat);
        lemma_line_start(b, (r - 1) as nat);
        lemma_next_newline(b, p);
        let q = next_newline(b, p);
        lemma_count_flat(b, p, q);
        assert(count_newlines(b, q + 1) == count_newlines(b, q) + 1);
    }
    let s = line_start(b, r);
    lemma_next_newline(b, s);
    let e = next_newline(b, s);
    lemma_count_flat(b, s, e);
    if r < max_row(b) && e == b.len() {
        assert(count_newlines(b, e) == r);
        assert(false);
    }
}

proof fn lemma_start_of_row_at(b: Seq<u8>, o: nat)
    requires
        o <= b.len(),
    ensures
        start_of_row_at(b, o) <= o,
        forall|k: int| start_of_row_at(b, o) <= k < o ==> b[k] != NEWLINE,
        start_of_row_at(b, o) > 0 ==> b[start_of_row_at(b, o) - 1] == NEWLINE,
    decreases o,
{
    if o > 0 && b[o - 1] != NEWLINE {
        lemma_start_of_row_at(b, (o - 1) as nat);
    }
}

proof fn lemma_start_of_row_at_is(b: Seq<u8>, s: nat, o: nat)
    requires
        s <= o <= b.len(),
        s == 0 || b[s - 1] == NEWLINE,
        forall|k: int| s <= k < o ==> b[k] != NEWLINE,
    ensures
        start_of_row_at(b, o) == s,
    decreases o - s,
{
    if s < o {
        lemma_start_of_row_at_is(b, s, (o - 1) as nat);
    }
}

/// The row of an offset starts where `line_start` says that row starts.
proof fn lemma_line_start_of_offset(b: Seq<u8>, o: nat)
    requires
        o <= b.len(),
    ensures
        count_newlines(b, o) <= max_row(b),
        line_start(b, count_newlines(b, o)) == start_of_row_at(b, o),
    decreases o,
{
    lemma_count_mono(b, o, b.len());
    if o > 0 {
        lemma_line_start_of_offset(b, (o - 1) as nat);
        if b[o - 1] == NEWLINE {
            let r = count_newlines(b, (o - 1) as nat);
            let s = start_of_row_at(b, (o - 1) as nat);
            lemma_start_of_row_at(b, (o - 1) as nat);
            lemma_next_newline_at(b, s, (o - 1) as nat);
        }
    }
}

/// Points and offsets convert into each other without loss: an offset
/// within the text comes back from its point, and a point within the text
/// (its row exists and its column is at most that row's length) comes back
/// from its offset.
pub proof fn lemma_point_offset_round_trip(b: Seq<u8>, o: nat, p: Point)
    requires
        b.len() <= u32::MAX,
    ensures
        o <= b.len() ==> point_to_offset(b, offset_to_point(b, o)) == o,
        p.row <= max_row(b) && p.column <= line_len(b, p.row as nat) ==> offset_to_point(
            b,
            point_to_offset(b, p),
        ) == p,
{
    if o <= b.len() {
        lemma_line_start_of_offset(b, o);
        lemma_start_of_row_at(b, o);
        lemma_count_mono(b, 0, o);
        let s = start_of_row_at(b, o);
        lemma_next_newline(b, s);
        lemma_count_flat(b, s, o);
    }
    if p.row <= max_row(b) && p.column <= line_len(b, p.row as nat) {
        let r = p.row as nat;
        lemma_line_start(b, r);
        let s = line_start(b, r);
        lemma_next_newline(b, s);
        let o2 = s + p.column as nat;
        lemma_count_flat(b, s, o2);
        lemma_start_of_row_at_is(b, s, o2);
    }
}

/// In valid UTF-8, the position just after an ASCII character is a boundary.
pub proof fn lemma_ascii_next_boundary(b: Seq<u8>, i: int)
    requires
        valid_utf8(b),
        0 <= i < b.len(),
        is_char_boundary(b, i),
        b[i] <= 0x7f,
    ensures
        is_char_boundary(b, i + 1),
    decreases b.len(),
{
    let l = length_of_first_scalar(b);
    let pop = pop_first_scalar(b);
    reveal_with_fuel(is_char_boundary, 2);
    if i == 0 {
        assert(l == 1);
    } else {
        assert(is_char_boundary(pop, i - l));
        assert(pop.len() < b.len());
        assert(pop[i - l] == b[i]);
        lemma_ascii_next_boundary(pop, i - l);
    }
}

/// Where a row starts and where its line break stands are character boundaries.
pub proof fn lemma_row_boundaries(b: Seq<u8>, r: nat)
    requires
        valid_utf8(b),
        r <= max_row(b),
    ensures
        is_char_boundary(b, line_start(b, r) as int),
        is_char_boundary(b, next_newline(b, line_start(b, r)) as int),
{
    lemma_line_start(b, r);
    let s = line_start(b, r);
    lemma_next_newline(b, s);
    let e = next_newline(b, s);
    if e < b.len() {
        is_char_boundary_iff_not_is_continuation_byte(b, e as int);
    }
    if r > 0 {
        let p = line_start(b, (r - 1) as nat);
        lemma_line_start(b, (r - 1) as nat);
        lemma_next_newline(b, p);
        is_char_boundary_iff_not_is_continuation_byte(b, s - 1);
        lemma_ascii_next_boundary(b, s - 1);
    }
}

/// The point of an offset lies within its row, and its row starts at
/// `line_start` of its row number.
pub proof fn lemma_offset_point_in_row(b: Seq<u8>, o: nat)
    requires
        o <= b.len(),
        b.len() <= u32::MAX,
    ensures
        offset_to_point(b, o).row <= max_row(b),
        offset_to_point(b, o).column <= line_len(b, offset_to_point(b, o).row as nat),
        line_start(b, offset_to_point(b, o).row as nat) + offset_to_point(b, o).column == o,
{
    lemma_line_start_of_offset(b, o);
    lemma_start_of_row_at(b, o);
    lemma_count_mono(b, 0, o);
    let s = start_of_row_at(b, o);
    lemma_next_newline(b, s);
    lemma_count_flat(b, s, o);
    if next_newline(b, s) < o {
        assert(b[next_newline(b, s) as int] != NEWLINE);
    }
}

// ---- UTF-16 offsets ----

/// The UTF-16 code units that byte `i` accounts for. A character takes two
/// units when its UTF-8 form has four bytes (a lead byte of `0xF0` or
/// more) and one otherwise: its first unit is counted at its lead byte and
/// the second at the byte after such a lead; other continuation bytes count
/// nothing.
pub open spec fn utf16_weight(b: Seq<u8>, i: int) -> nat {
    if !is_continuation_byte(b[i]) {
        1
    } else if i > 0 && b[i - 1] >= 0xF0 {
        1
    } else {
        0
    }
}

/// The number of UTF-16 code units that the first `n` bytes encode.
pub open spec fn utf16_prefix(b: Seq<u8>, n: nat) -> nat
    decreases n,
{
    if n == 0 {
        0
    } else {
        utf16_prefix(b, (n - 1) as nat) + utf16_weight(b, n - 1)
    }
}

/// The first character boundary at or after byte `i` that `target` UTF-16
/// units reach; the end of the text when the text has fewer units.
pub open spec fn utf16_offset_from(b: Seq<u8>, i: nat, target: nat) -> nat
    decreases b.len() - i,
{
    if i >= b.len() {
        b.len()
    } else if is_char_boundary(b, i as int) && utf16_prefix(b, i) >= target {
        i
    } else {
        utf16_offset_from(b, i + 1, target)
    }
}

/// The byte offset where `target` UTF-16 units are reached: the first
/// character boundary with at least that many units before it (a target
/// inside a surrogate pair rounds up to the end of the character).
pub open spec fn offset_of_utf16(b: Seq<u8>, target: nat) -> nat {
    utf16_offset_from(b, 0, target)
}

/// The UTF-16 offset of byte offset `off` (clipped to the text).
pub open spec fn utf16_of_offset(b: Seq<u8>, off: nat) -> nat {
    utf16_prefix(b, if off > b.len() { b.len() } else { off })
}

pub proof fn lemma_utf16_prefix_bound(b: Seq<u8>, n: nat)
    ensures
        utf16_prefix(b, n) <= n,
    decreases n,
{
    if n > 0 {
        lemma_utf16_prefix_bound(b, (n - 1) as nat);
    }
}

/// UTF-16 offsets only grow with the byte offset.
pub proof fn lemma_utf16_prefix_mono(b: Seq<u8>, m: nat, n: nat)
    requires
        m <= n,
    ensures
        utf16_prefix(b, m) <= utf16_prefix(b, n),
    decreases n - m,
{
    if m < n {
        lemma_utf16_prefix_mono(b, m, (n - 1) as nat);
    }
}

/// What `utf16_offset_from` finds is a character boundary in the text, and
/// a larger target is not reached earlier.
pub proof fn lemma_utf16_offset_from(b: Seq<u8>, i: nat, t: nat, u: nat)
    requires
        valid_utf8(b),
        i <= b.len(),
        t <= u,
    ensures
        i <= utf16_offset_from(b, i, t) <= b.len(),
        is_char_boundary(b, utf16_offset_from(b, i, t) as int),
        utf16_offset_from(b, i, t) <= utf16_offset_from(b, i, u),
    decreases b.len() - i,
{
    is_char_boundary_start_end_of_seq(b);
    if i < b.len() {
        lemma_utf16_offset_from(b, i + 1, t, u);
    }
}

/// Scanning for the UTF-16 offset of a boundary `o` from any byte at or
/// before it stops exactly at `o`.
proof fn lemma_utf16_scan_to(b: Seq<u8>, i: nat, o: nat)
    requires
        valid_utf8(b),
        i <= o <= b.len(),
        is_char_boundary(b, o as int),
    ensures
        utf16_offset_from(b, i, utf16_prefix(b, o)) == o,
    decreases o - i,
{
    if i < o {
        if is_char_boundary(b, i as int) {
            is_char_boundary_iff_not_is_continuation_byte(b, i as int);
            lemma_utf16_prefix_mono(b, i + 1, o);
            assert(utf16_prefix(b, i + 1) == utf16_prefix(b, i) + 1);
        }
        lemma_utf16_scan_to(b, i + 1, o);
    }
}

/// Byte offsets between characters survive the trip to UTF-16 and back.
pub proof fn lemma_utf16_round_trip(b: Seq<u8>, o: nat)
    requires
        valid_utf8(b),
        o <= b.len(),
        is_char_boundary(b, o as int),
    ensures
        offset_of_utf16(b, utf16_of_offset(b, o)) == o,
{
    lemma_utf16_scan_to(b, 0, o);
}

// ---- the text itself ----

/// `std::str::from_utf8`, on bytes known to be valid UTF-8: the text they
/// encode. The standard library documents that this succeeds exactly on
/// valid UTF-8 and then views the same bytes as a string.
#[verifier::external_body]
pub(crate) fn str_from_utf8(bytes: &[u8]) -> (r: &str)
    requires
        valid_utf8(bytes@),
    ensures
        r@ == decode_utf8(bytes@),
{
    std::str::from_utf8(bytes).unwrap()
}

/// UTF-8 text addressed by byte offsets.
pub struct Rope {
    bytes: Vec<u8>,
}

impl View for Rope {
    type V = Seq<u8>;

    closed spec fn view(&self) -> Seq<u8> {
        self.bytes@
    }
}

impl Rope {
    #[verifier::type_invariant]
    spec fn inv(self) -> bool {
        &&& valid_utf8(self.bytes@)
        &&& self.bytes@.len() <= u32::MAX
    }

    /// The text as characters.
    pub open spec fn text(&self) -> Seq<char> {
        decode_utf8(self@)
    }

    /// A valid buffer: UTF-8 that row and column numbers can address.
    pub open spec fn well_formed(b: Seq<u8>) -> bool {
        valid_utf8(b) && b.len() <= u32::MAX
    }

    /// The empty text.
    pub fn new() -> (r: Self)
        ensures
            r@ == Seq::<u8>::empty(),
            Rope::well_formed(r@),
    {
        let r = Rope { bytes: Vec::new() };
        proof {
            assert(r.bytes@ =~= encode_utf8(Seq::<char>::empty()));
        }
        r
    }

    /// The text of a string.
    pub fn from_str(s: &str) -> (r: Self)
        requires
            encode_utf8(s@).len() <= u32::MAX,
        ensures
            r@ == encode_utf8(s@),
            r.text() == s@,
            Rope::well_formed(r@),
    {
        let src = s.as_bytes();
        let mut bytes: Vec<u8> = Vec::new();
        let mut i: usize = 0;
        while i < src.len()
            invariant
                i <= src@.len(),
                src@ == encode_utf8(s@),
                bytes@ == src@.take(i as int),
            decreases src@.len() - i,
        {
            bytes.push(src[i]);
            i = i + 1;
            proof {
                assert(bytes@ =~= src@.take(i as int));
            }
        }
        proof {
            assert(src@.take(src@.len() as int) =~= src@);
        }
        Rope { bytes }
    }

    /// Every buffer is well formed.
    pub fn well_formed_now(&self)
        ensures
            Rope::well_formed(self@),
    {
        proof {
            use_type_invariant(self);
        }
    }

    /// The length in bytes.
    pub fn len(&self) -> (r: usize)
        ensures
            r == self@.len(),
    {
        self.bytes.len()
    }

    /// The number of the last row (the number of line breaks).
    pub fn max_row(&self) -> (r: u32)
        ensures
            r == max_row(self@),
    {
        proof {
            use_type_invariant(self);
        }
        let mut count: usize = 0;
        let mut i: usize = 0;
        while i < self.bytes.len()
            invariant
                i <= self.bytes@.len(),
                self.bytes@.len() <= u32::MAX,
                count == count_newlines(self.bytes@, i as nat),
                count <= i,
            decreases self.bytes@.len() - i,
        {
            if self.bytes[i] == NEWLINE {
                count = count + 1;
            }
            i = i + 1;
        }
        count as u32
    }

    fn next_newline(&self, i: usize) -> (r: usize)
        requires
            i <= self@.len(),
        ensures
            r == next_newline(self@, i as nat),
    {
        let mut j = i;
        while j < self.bytes.len() && self.bytes[j] != NEWLINE
            invariant
                i <= j <= self.bytes@.len(),
                next_newline(self.bytes@, i as nat) == next_newline(self.bytes@, j as nat),
            decreases self.bytes@.len() - j,
        {
            j = j + 1;
        }
        j
    }

    /// The offset where row `row` starts.
    fn line_start(&self, row: u32) -> (r: usize)
        requires
            row <= max_row(self@),
        ensures
            r == line_start(self@, row as nat),
            r <= self@.len(),
    {
        proof {
            use_type_invariant(self);
        }
        let mut s: usize = 0;
        let mut r: u32 = 0;
        while r < row
            invariant
                self@.len() <= u32::MAX,
                r <= row <= max_row(self@),
                s == line_start(self@, r as nat),
            decreases row - r,
        {
            proof {
                lemma_line_start(self@, r as nat);
                lemma_next_newline(self@, s as nat);
                assert((r as nat) < max_row(self@));
                assert(next_newline(self@, s as nat) < self@.len());
            }
            let e = self.next_newline(s);
            assert(e < self@.len());
            s = e + 1;
            r = r + 1;
        }
        proof {
            lemma_line_start(self@, row as nat);
        }
        s
    }

    /// The offset of a point, clipped to the text.
    pub fn point_to_offset(&self, p: Point) -> (r: usize)
        ensures
            r == point_to_offset(self@, p),
            r <= self@.len(),
    {
        let last = self.max_row();
        if p.row > last {
            return self.bytes.len();
        }
        let s = self.line_start(p.row);
        let e = self.next_newline(s);
        proof {
            lemma_next_newline(self@, s as nat);
        }
        if (p.column as usize) <= e - s {
            s + p.column as usize
        } else {
            e
        }
    }

    /// The point of an offset, clipped to the text.
    pub fn offset_to_point(&self, offset: usize) -> (r: Point)
        ensures
            r == offset_to_point(self@, offset as nat),
    {
        proof {
            use_type_invariant(self);
        }
        let o = if offset > self.bytes.len() {
            self.bytes.len()
        } else {
            offset
        };
        let mut row: usize = 0;
        let mut start: usize = 0;
        let mut i: usize = 0;
        while i < o
            invariant
                o <= self.bytes@.len() <= u32::MAX,
                i <= o,
                row == count_newlines(self.bytes@, i as nat),
                start == start_of_row_at(self.bytes@, i as nat),
                row <= i,
                start <= i,
            decreases o - i,
        {
            if self.bytes[i] == NEWLINE {
                row = row + 1;
                start = i + 1;
            }
            i = i + 1;
        }
        Point::new(row as u32, (o - start) as u32)
    }

    /// The length of row `row` (clipped to the last row), without its line break.
    pub fn line_len(&self, row: u32) -> (r: u32)
        ensures
            r == line_len(self@, row as nat),
    {
        proof {
            use_type_invariant(self);
        }
        let last = self.max_row();
        let r = if row > last {
            last
        } else {
            row
        };
        let s = self.line_start(r);
        let e = self.next_newline(s);
        proof {
            lemma_next_newline(self@, s as nat);
        }
        (e - s) as u32
    }

    /// The UTF-16 offset of a byte offset (clipped to the text).
    pub fn offset_to_offset_utf16(&self, offset: usize) -> (r: OffsetUtf16)
        ensures
            r.0 == utf16_of_offset(self@, offset as nat),
            r.0 <= self@.len(),
    {
        let o = if offset > self.bytes.len() {
            self.bytes.len()
        } else {
            offset
        };
        let mut units: usize = 0;
        let mut i: usize = 0;
        while i < o
            invariant
                o <= self.bytes@.len(),
                i <= o,
                units == utf16_prefix(self.bytes@, i as nat),
            decreases o - i,
        {
            proof {
                lemma_utf16_prefix_bound(self.bytes@, i as nat);
            }
            let byte = self.bytes[i];
            if !(0x80u8 <= byte && byte <= 0xbfu8) {
                units = units + 1;
            } else if i > 0 && self.bytes[i - 1] >= 0xf0u8 {
                units = units + 1;
            }
            i = i + 1;
        }
        proof {
            lemma_utf16_prefix_bound(self.bytes@, o as nat);
        }
        OffsetUtf16(units)
    }

    /// The byte offset where `target` UTF-16 units are reached (see
    /// `offset_of_utf16`); a character boundary.
    pub fn offset_utf16_to_offset(&self, target: OffsetUtf16) -> (r: usize)
        ensures
            r == offset_of_utf16(self@, target.0 as nat),
            r <= self@.len(),
            is_char_boundary(self@, r as int),
    {
        proof {
            use_type_invariant(self);
            lemma_utf16_offset_from(self@, 0, target.0 as nat, target.0 as nat);
        }
        let mut units: usize = 0;
        let mut i: usize = 0;
        while i < self.bytes.len()
            invariant
                i <= self.bytes@.len(),
                valid_utf8(self@),
                self@ == self.bytes@,
                units == utf16_prefix(self.bytes@, i as nat),
                offset_of_utf16(self@, target.0 as nat) == utf16_offset_from(self@, i as nat, target.0 as nat),
            decreases self.bytes@.len() - i,
        {
            if self.is_char_boundary(i) && units >= target.0 {
                return i;
            }
            proof {
                lemma_utf16_prefix_bound(self.bytes@, i as nat);
            }
            let byte = self.bytes[i];
            if !(0x80u8 <= byte && byte <= 0xbfu8) {
                units = units + 1;
            } else if i > 0 && self.bytes[i - 1] >= 0xf0u8 {
                units = units + 1;
            }
            i = i + 1;
        }
        self.bytes.len()
    }

    /// Whether `i` falls between characters.
    pub fn is_char_boundary(&self, i: usize) -> (r: bool)
        ensures
            r == (i <= self@.len() && is_char_boundary(self@, i as int)),
    {
        proof {
            use_type_invariant(self);
        }
        if i == 0 || i == self.bytes.len() {
            true
        } else if i > self.bytes.len() {
            false
        } else {
            let byte = self.bytes[i];
            proof {
                is_char_boundary_iff_not_is_continuation_byte(self@, i as int);
            }
            !(0x80u8 <= byte && byte <= 0xbfu8)
        }
    }

    /// The largest character boundary at or before `i`.
    pub fn floor_char_boundary(&self, i: usize) -> (r: usize)
        ensures
            r == floor_boundary(self@, i as nat),
            is_floor_boundary(self@, i as int, r as int),
    {
        proof {
            use_type_invariant(self);
        }
        let mut j = if i > self.bytes.len() {
            self.bytes.len()
        } else {
            i
        };
        while !self.is_char_boundary(j)
            invariant
                j <= self@.len(),
                j <= i,
                valid_utf8(self@),
                floor_boundary(self@, i as nat) == floor_from(self@, j as nat),
                forall|k: int| j < k <= i && k <= self@.len() ==> !is_char_boundary(self@, k),
            decreases j,
        {
            j = j - 1;
        }
        j
    }

    /// The smallest character boundary at or after `i` (the end when `i` is past it).
    pub fn ceil_char_boundary(&self, i: usize) -> (r: usize)
        ensures
            r == ceil_from(self@, i as nat),
            is_ceil_boundary(self@, i as int, r as int),
    {
        proof {
            use_type_invariant(self);
        }
        if i > self.bytes.len() {
            return self.bytes.len();
        }
        let mut j = i;
        while !self.is_char_boundary(j)
            invariant
                i <= j <= self@.len(),
                valid_utf8(self@),
                self@.len() <= u32::MAX,
                is_char_boundary(self@, self@.len() as int),
                ceil_from(self@, i as nat) == ceil_from(self@, j as nat),
                forall|k: int| i <= k < j ==> !is_char_boundary(self@, k),
            decreases self@.len() - j,
        {
            assert(j != self@.len());
            j = j + 1;
        }
        j
    }

    /// The bytes `[start, end)` as a string slice.
    pub fn str_in_range(&self, start: usize, end: usize) -> (r: &str)
        requires
            start <= end <= self@.len(),
            is_char_boundary(self@, start as int),
            is_char_boundary(self@, end as int),
        ensures
            encode_utf8(r@) == self@.subrange(start as int, end as int),
            r@ == decode_utf8(self@.subrange(start as int, end as int)),
    {
        proof {
            use_type_invariant(self);
            let b = self@;
            valid_utf8_split(b, start as int);
            let rest = b.subrange(start as int, b.len() as int);
            assert(is_char_boundary(rest, end - start)) by {
                lemma_boundary_shift(b, start as int, end as int);
            }
            valid_utf8_split(rest, end - start);
            assert(rest.subrange(0, end - start) =~= b.subrange(start as int, end as int));
        }
        let slice = self.bytes.as_slice();
        str_from_utf8(&slice[start..end])
    }

    /// The text of the bytes `[range.start, range.end)`.
    pub fn text_in_range(&self, range: Range<usize>) -> (r: String)
        requires
            range.start <= range.end <= self@.len(),
            is_char_boundary(self@, range.start as int),
            is_char_boundary(self@, range.end as int),
        ensures
            r@ == decode_utf8(self@.subrange(range.start as int, range.end as int)),
            encode_utf8(r@) == self@.subrange(range.start as int, range.end as int),
    {
        let s = self.str_in_range(range.start, range.end);
        s.to_owned()
    }

    /// The whole text.
    pub fn to_string(&self) -> (r: String)
        ensures
            r@ == self.text(),
            encode_utf8(r@) == self@,
    {
        proof {
            use_type_invariant(self);
            assert(self@.subrange(0, self@.len() as int) =~= self@);
        }
        self.text_in_range(Range { start: 0, end: self.bytes.len() })
    }

    /// Replaces the bytes `[range.start, range.end)` by `text`.
    pub fn replace(&mut self, range: Range<usize>, text: &str)
        requires
            range.start <= range.end <= old(self)@.len(),
            is_char_boundary(old(self)@, range.start as int),
            is_char_boundary(old(self)@, range.end as int),
            old(self)@.len() - (range.end - range.start) + encode_utf8(text@).len() <= u32::MAX,
        ensures
            final(self)@ == old(self)@.subrange(0, range.start as int) + encode_utf8(text@)
                + old(self)@.subrange(range.end as int, old(self)@.len() as int),
            Rope::well_formed(final(self)@),
    {
        proof {
            use_type_invariant(&*self);
        }
        let src = text.as_bytes();
        let n = self.bytes.len();
        let mut bytes: Vec<u8> = Vec::new();
        let mut i: usize = 0;
        while i < range.start
            invariant
                i <= range.start <= range.end <= n == self.bytes@.len(),
                bytes@ == self.bytes@.subrange(0, i as int),
            decreases range.start - i,
        {
            bytes.push(self.bytes[i]);
            i = i + 1;
            proof {
                assert(bytes@ =~= self.bytes@.subrange(0, i as int));
            }
        }
        let mut j: usize = 0;
        while j < src.len()
            invariant
                j <= src@.len(),
                src@ == encode_utf8(text@),
                range.start <= range.end <= n == self.bytes@.len(),
                bytes@ == self.bytes@.subrange(0, range.start as int) + src@.take(j as int),
            decreases src@.len() - j,
        {
            bytes.push(src[j]);
            j = j + 1;
            proof {
                assert(bytes@ =~= self.bytes@.subrange(0, range.start as int) + src@.take(
                    j as int,
                ));
            }
        }
        let mut k: usize = range.end;
        while k < n
            invariant
                range.start <= range.end <= k <= n == self.bytes@.len(),
                src@ == encode_utf8(text@),
                bytes@ == self.bytes@.subrange(0, range.start as int) + src@
                    + self.bytes@.subrange(range.end as int, k as int),
            decreases n - k,
        {
            bytes.push(self.bytes[k]);
            k = k + 1;
            proof {
                assert(src@.take(src@.len() as int) =~= src@);
                assert(bytes@ =~= self.bytes@.subrange(0, range.start as int) + src@
                    + self.bytes@.subrange(range.end as int, k as int));
            }
        }
        proof {
            let b = self.bytes@;
            valid_utf8_split(b, range.start as int);
            valid_utf8_split(b, range.end as int);
            let head = b.subrange(0, range.start as int);
            let tail = b.subrange(range.end as int, b.len() as int);
            valid_utf8_concat(head, src@);
            valid_utf8_concat(head + src@, tail);
            assert(src@.take(src@.len() as int) =~= src@);
        }
        self.bytes = bytes;
    }
}

/// A boundary of a suffix is a boundary of the whole text, shifted.
pub proof fn lemma_boundary_shift(b: Seq<u8>, start: int, end: int)
    requires
        valid_utf8(b),
        0 <= start <= end <= b.len(),
        is_char_boundary(b, start),
        is_char_boundary(b, end),
    ensures
        is_char_boundary(b.subrange(start, b.len() as int), end - start),
{
    let rest = b.subrange(start, b.len() as int);
    valid_utf8_split(b, start);
    if end == b.len() {
        is_char_boundary_start_end_of_seq(rest);
    } else if end == start {
        is_char_boundary_start_end_of_seq(rest);
    } else {
        is_char_boundary_iff_not_is_continuation_byte(b, end);
        is_char_boundary_iff_not_is_continuation_byte(rest, end - start);
    }
}

/// Encoding distributes over concatenation.
pub proof fn lemma_encode_append(a: Seq<char>, b: Seq<char>)
    ensures
        encode_utf8(a + b) == encode_utf8(a) + encode_utf8(b),
    decreases a.len(),
{
    if a.len() == 0 {
        assert(a + b =~= b);
        assert(encode_utf8(a) + encode_utf8(b) =~= encode_utf8(b));
    } else {
        assert((a + b).drop_first() =~= a.drop_first() + b);
        assert((a + b)[0] == a[0]);
        lemma_encode_append(a.drop_first(), b);
        assert(encode_utf8(a + b) =~= encode_utf8(a) + encode_utf8(b));
    }
}

/// A line break encodes as the one byte `NEWLINE`.
pub proof fn lemma_encode_newline()
    ensures
        encode_utf8(seq!['\n']) == seq![NEWLINE],
{
    let c = seq!['\n'];
    assert(c.len() == 1 && c[0] == '\n');
    assert(c.drop_first() =~= Seq::<char>::empty());
    assert(encode_utf8(c.drop_first()) =~= Seq::<u8>::empty());
    assert(('\n' as u32) == 10u32);
    assert((10u32 & 0x7Fu32) == 10u32) by (bit_vector);
    assert(has_width_1_encoding(10u32));
    assert(encode_scalar(10u32) =~= seq![NEWLINE]);
    assert(encode_utf8(c) == encode_scalar(c[0] as u32) + encode_utf8(c.drop_first()));
    assert(encode_utf8(c) =~= seq![NEWLINE]);
}

} // verus!
