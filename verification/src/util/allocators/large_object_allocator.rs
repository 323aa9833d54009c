//! An allocator that allocates whole pages, for large objects.

use vstd::arithmetic::power2;
use vstd::prelude::*;

use crate::util::constants::{BYTES_IN_CACHE_LINE, BYTES_IN_PAGE, LOG_BYTES_IN_PAGE};

verus! {

/// The number of start phases, unless another one is set.
pub const DEFAULT_PHASE_LINES: usize = 16;

/// The largest number of start phases. With more, an object would not start in its first page.
pub const MAX_PHASE_LINES: usize = 64;

/// The number that decimal `digits` stand for.
pub open spec fn decimal(digits: Seq<u8>) -> nat
    decreases digits.len(),
{
    if digits.len() == 0 {
        0
    } else {
        10 * decimal(digits.drop_last()) + (digits.last() - 48) as nat
    }
}

/// Whether `s` consists of decimal digits, of which there is at least one.
pub open spec fn is_decimal(s: Seq<u8>) -> bool {
    &&& s.len() > 0
    &&& forall|i: int| 0 <= i < s.len() ==> 48 <= #[trigger] s[i] <= 57
}

/// `s` without a leading plus sign.
pub open spec fn unsigned(s: Seq<u8>) -> Seq<u8> {
    if s.len() > 0 && s[0] == 43 {
        s.skip(1)
    } else {
        s
    }
}

/// The number that `s` is the text of: decimal digits, maybe after a plus sign, that stand for a
/// number which fits in a word.
pub open spec fn parsed(s: Seq<u8>) -> Option<usize> {
    let digits = unsigned(s);
    if is_decimal(digits) && decimal(digits) <= usize::MAX {
        Some(decimal(digits) as usize)
    } else {
        None
    }
}

proof fn lemma_decimal_monotone(s: Seq<u8>, n: int)
    requires
        is_decimal(s),
        0 <= n <= s.len(),
    ensures
        decimal(s.take(n)) <= decimal(s),
    decreases s.len(),
{
    if n < s.len() {
        let rest = s.drop_last();
        if n > 0 {
            assert(is_decimal(rest)) by {
                assert forall|i: int| 0 <= i < rest.len() implies 48 <= #[trigger] rest[i]
                    <= 57 by {
                    assert(rest[i] == s[i]);
                }
            }
            lemma_decimal_monotone(rest, n);
            assert(rest.take(n) =~= s.take(n));
        } else {
            assert(s.take(0) =~= Seq::empty());
        }
    } else {
        assert(s.take(n) =~= s);
    }
}

/// The number that `s` is the text of.
pub fn parse_usize(s: &Vec<u8>) -> (r: Option<usize>)
    ensures
        r == parsed(s@),
{
    let mut start: usize = 0;
    if s.len() > 0 && s[0] == 43 {
        start = 1;
    }
    let ghost digits = unsigned(s@);
    assert(digits =~= s@.skip(start as int));
    if start == s.len() {
        return None;
    }
    let mut value: usize = 0;
    let mut i: usize = start;
    assert(digits.take(0) =~= Seq::empty());
    while i < s.len()
        invariant
            start <= i <= s@.len(),
            start < s@.len(),
            digits == unsigned(s@),
            digits =~= s@.skip(start as int),
            value == decimal(digits.take(i - start)),
            forall|k: int| 0 <= k < i - start ==> 48 <= #[trigger] digits[k] <= 57,
        decreases s@.len() - i,
    {
        let c: u8 = s[i];
        assert(digits[i - start] == c);
        if c < 48 || c > 57 {
            assert(!is_decimal(digits));
            return None;
        }
        let digit: usize = (c - 48) as usize;
        assert(digits.take(i - start + 1).drop_last() =~= digits.take(i - start));
        assert(decimal(digits.take(i - start + 1)) == 10 * value + digit);
        if value > usize::MAX / 10 || value * 10 > usize::MAX - digit {
            proof {
                if is_decimal(digits) {
                    lemma_decimal_monotone(digits, i - start + 1);
                }
            }
            return None;
        }
        value = value * 10 + digit;
        i = i + 1;
    }
    assert(digits.take(i - start) =~= digits);
    Some(value)
}

/// The number of start phases that the setting `value` asks for: what it is the text of, if that is
/// not too large, and the default otherwise. None or one switches the phases off.
pub open spec fn phase_range(value: Option<Seq<u8>>) -> usize {
    match value {
        Some(text) => match parsed(text) {
            Some(n) => if n <= MAX_PHASE_LINES {
                n
            } else {
                DEFAULT_PHASE_LINES
            },
            None => DEFAULT_PHASE_LINES,
        },
        None => DEFAULT_PHASE_LINES,
    }
}

/// The number of start phases that the setting `value` asks for.
pub fn los_phase_range(value: &Option<Vec<u8>>) -> (range: usize)
    ensures
        range == phase_range(
            match *value {
                Some(text) => Some(text@),
                None => None,
            },
        ),
        range <= MAX_PHASE_LINES,
{
    match value {
        Some(text) => match parse_usize(text) {
            Some(n) => if n <= MAX_PHASE_LINES {
                n
            } else {
                DEFAULT_PHASE_LINES
            },
            None => DEFAULT_PHASE_LINES,
        },
        None => DEFAULT_PHASE_LINES,
    }
}

/// The number of start phases of a process: what the setting asked for when it was first read.
#[derive(Clone, Copy, PartialEq, Eq, Structural, Debug)]
pub struct PhaseSetting {
    pub kept: Option<usize>,
}

impl PhaseSetting {
    /// What is kept is a number of start phases that a setting can ask for.
    pub open spec fn wf(&self) -> bool {
        self.kept matches Some(range) ==> range <= MAX_PHASE_LINES
    }

    /// A setting that was not read yet.
    pub fn new() -> (s: Self)
        ensures
            s.wf(),
            s.kept is None,
    {
        PhaseSetting { kept: None }
    }

    /// The number of start phases, where the setting now reads `value`: what was kept, or, the first
    /// time, what `value` asks for.
    pub fn get(&mut self, value: &Option<Vec<u8>>) -> (range: usize)
        requires
            old(self).wf(),
        ensures
            final(self).wf(),
            range == (match old(self).kept {
                Some(kept) => kept,
                None => phase_range(
                    match *value {
                        Some(text) => Some(text@),
                        None => None,
                    },
                ),
            }),
            final(self).kept == Some(range),
            range <= MAX_PHASE_LINES,
    {
        match self.kept {
            Some(range) => range,
            None => {
                let range: usize = los_phase_range(value);
                self.kept = Some(range);
                range
            },
        }
    }
}

/// Every reading of the setting gives what the first one asked for, whatever the setting reads
/// later. `settings` are the states between the readings, `values` what the setting then was, and
/// `ranges` what the readings gave.
pub proof fn law_the_first_setting_is_kept(
    settings: Seq<PhaseSetting>,
    values: Seq<Option<Seq<u8>>>,
    ranges: Seq<usize>,
    n: int,
)
    requires
        settings.len() == values.len() + 1,
        ranges.len() == values.len(),
        settings[0].kept is None,
        forall|i: int|
            0 <= i < values.len() ==> #[trigger] ranges[i] == (match settings[i].kept {
                Some(kept) => kept,
                None => phase_range(values[i]),
            }) && settings[i + 1].kept == Some(ranges[i]),
        0 <= n < values.len(),
    ensures
        ranges[n] == phase_range(values[0]),
        ranges[n] <= MAX_PHASE_LINES,
        ranges[n] >= 1 ==> (ranges[n] - 1) * 64 < BYTES_IN_PAGE,
    decreases n,
{
    assert(ranges[n] == ranges[n]);
    if n > 0 {
        law_the_first_setting_is_kept(settings, values, ranges, n - 1);
        assert(settings[n - 1 + 1].kept == Some(ranges[n - 1]));
    }
}

/// Whether `align` is a power of two.
pub open spec fn is_alignment(align: usize) -> bool {
    exists|n: nat| align == #[trigger] power2::pow2(n)
}

/// The least multiple of `align` that is at least `x`.
pub open spec fn rounded_up(x: int, align: int) -> int {
    ((x + align - 1) / align) * align
}

/// The pad before an object in start phase `k`: that many cache lines, rounded up to the alignment;
/// none, where that would not be less than a page.
pub open spec fn pad(k: int, align: int) -> int {
    let lines = rounded_up(k * 64, align);
    if lines < BYTES_IN_PAGE {
        lines
    } else {
        0
    }
}

/// Rounding up by masking.
proof fn lemma_round_up(x: usize, align: usize)
    requires
        is_alignment(align),
        x <= 4032,
    ensures
        align >= 1,
        x + align <= usize::MAX,
        ((x + align - 1) as usize) & !((align - 1) as usize) == rounded_up(
            x as int,
            align as int,
        ),
{
    let n = choose|n: nat| align == #[trigger] power2::pow2(n);
    lemma_alignment_bound(align, n);
    power2::lemma_pow2_pos(n);
    let y: usize = (x + align - 1) as usize;
    let m: usize = (align - 1) as usize;
    assert((y & !m) + (y & m) == y) by (bit_vector);
    vstd::bits::lemma_usize_low_bits_mask_is_mod(y, n);
    assert(vstd::bits::low_bits_mask(n) == m);
    assert(y & m == y % align);
    vstd::arithmetic::div_mod::lemma_fundamental_div_mod(y as int, align as int);
    vstd::arithmetic::mul::lemma_mul_is_commutative(align as int, y as int / align as int);
}

/// A power of two that fits in a word is at most half of what a word can count.
proof fn lemma_alignment_bound(align: usize, n: nat)
    requires
        align == power2::pow2(n),
    ensures
        n < usize::BITS,
        align + 4032 <= usize::MAX,
{
    power2::lemma2_to64();
    power2::lemma2_to64_rest();
    if n >= usize::BITS {
        if usize::BITS < n {
            power2::lemma_pow2_strictly_increases(usize::BITS as nat, n);
        }
        assert(false);
    }
    let top = (usize::BITS - 1) as nat;
    if n < top {
        power2::lemma_pow2_strictly_increases(n, top);
    }
}

/// An allocator that allocates whole pages. Page-aligned objects would all start in the same cache
/// set; so the allocator starts successive objects a rotating number of cache lines into their
/// first page.
pub struct LargeObjectAllocator {
    /// The thread of the allocator.
    pub tls: usize,
    /// The number of start phases.
    pub range: usize,
    /// The start phase of the next object.
    pub phase: usize,
}

/// A request for memory, and what is to be skipped at its start.
#[derive(Clone, Copy, PartialEq, Eq, Structural, Debug)]
pub struct AllocRequest {
    /// The bytes to ask for: those of the object and of the pad.
    pub size: usize,
    pub align: usize,
    pub offset: usize,
    /// The pad before the object.
    pub phase: usize,
}

/// `region`, or the first address after it, at which `offset` bytes further on is a multiple of
/// `align`.
pub open spec fn aligned(region: int, align: int, offset: int) -> int {
    region + (-(region + offset)) % align
}

impl LargeObjectAllocator {
    /// The phase is one of the phases.
    pub open spec fn wf(&self) -> bool {
        &&& self.range <= MAX_PHASE_LINES
        &&& self.range > 1 ==> self.phase < self.range
    }

    /// The pad before the next object.
    pub open spec fn next_pad(&self, align: usize) -> int {
        if self.range <= 1 {
            0
        } else {
            pad(self.phase as int, align as int)
        }
    }

    /// The start phase after that of the next object.
    pub open spec fn phase_after(&self) -> int {
        if self.range <= 1 {
            self.phase as int
        } else {
            (self.phase + 1) % (self.range as int)
        }
    }

    /// An allocator with `range` start phases.
    pub fn new(tls: usize, range: usize) -> (a: Self)
        requires
            range <= MAX_PHASE_LINES,
        ensures
            a.wf(),
            a.tls == tls,
            a.range == range,
            a.phase == 0,
    {
        LargeObjectAllocator { tls, range, phase: 0 }
    }

    /// The thread of the allocator.
    pub fn get_tls(&self) -> (r: usize)
        ensures
            r == self.tls,
    {
        self.tls
    }

    /// Whether allocation needs no synchronization: it does.
    pub fn does_thread_local_allocation(&self) -> (r: bool)
        ensures
            !r,
    {
        false
    }

    /// The pad before the next object, in bytes: a multiple of the alignment that is less than a page.
    /// The phases are taken in turn.
    pub fn next_phase(&mut self, align: usize) -> (r: usize)
        requires
            old(self).wf(),
            is_alignment(align),
        ensures
            final(self).wf(),
            *final(self) == (LargeObjectAllocator { phase: final(self).phase, ..*old(self) }),
            r == old(self).next_pad(align),
            r < BYTES_IN_PAGE,
            r as int % (align as int) == 0,
            final(self).phase == old(self).phase_after(),
    {
        let range: usize = self.range;
        proof {
            power2::lemma_pow2_pos(choose|n: nat| align == #[trigger] power2::pow2(n));
            vstd::arithmetic::div_mod::lemma_small_mod(0, align as nat);
        }
        if range <= 1 {
            return 0;
        }
        let k: usize = self.phase;
        self.phase = (self.phase + 1) % range;
        let lines: usize = k * BYTES_IN_CACHE_LINE;
        proof {
            lemma_round_up(lines, align);
            lemma_rounded_up(lines as int, align as int);
        }
        let pad: usize = (lines + align - 1) & !(align - 1);
        if pad < BYTES_IN_PAGE {
            pad
        } else {
            0
        }
    }

    /// What to ask the space for, to allocate an object of `size` bytes.
    pub fn alloc_request(&mut self, size: usize, align: usize, offset: usize) -> (request: AllocRequest)
        requires
            old(self).wf(),
            is_alignment(align),
            size + old(self).next_pad(align) <= usize::MAX,
        ensures
            final(self).wf(),
            *final(self) == (LargeObjectAllocator { phase: final(self).phase, ..*old(self) }),
            request.align == align,
            request.offset == offset,
            request.phase == old(self).next_pad(align),
            request.size == size + request.phase,
            final(self).phase == old(self).phase_after(),
    {
        let phase: usize = self.next_phase(align);
        AllocRequest { size: size + phase, align, offset, phase }
    }

    /// How many pages to allocate for `size` bytes: enough to align them, where the space hands out
    /// memory at multiples of `min_alignment`. None, if the request can obviously not be met.
    pub fn alloc_slow_once(
        &self,
        size: usize,
        align: usize,
        min_alignment: usize,
        obvious_oom: bool,
    ) -> (pages: Option<usize>)
        requires
            !obvious_oom ==> size + align + BYTES_IN_PAGE <= usize::MAX,
        ensures
            obvious_oom ==> pages is None,
            !obvious_oom ==> pages == Some(
                (rounded_up(max_aligned_size(size, align, min_alignment), 4096) / 4096) as usize,
            ),
    {
        if obvious_oom {
            return None;
        }
        let max_bytes: usize = if align <= min_alignment {
            size
        } else {
            size + (align - min_alignment)
        };
        let up: usize = max_bytes + (BYTES_IN_PAGE - 1);
        proof {
            assert(up >> 12usize == up / 4096usize) by (bit_vector);
            assert(rounded_up(max_bytes as int, 4096) / 4096 == up / 4096usize) by {
                vstd::arithmetic::div_mod::lemma_div_by_multiple(up as int / 4096, 4096);
            }
        }
        Some(up >> LOG_BYTES_IN_PAGE)
    }
}

/// The bytes that `size` bytes take at most when they are aligned to `align`, in memory at multiples
/// of `min_alignment`.
pub open spec fn max_aligned_size(size: usize, align: usize, min_alignment: usize) -> int {
    if align <= min_alignment {
        size as int
    } else {
        size + align - min_alignment
    }
}

impl AllocRequest {
    /// Where the object is, given the memory at `cell` that the space has allocated. Zero says that
    /// there was none.
    pub fn finish(&self, cell: usize) -> (object: usize)
        requires
            self.align > 0,
            cell + self.phase + self.align <= usize::MAX,
            cell + self.phase + self.offset <= usize::MAX,
        ensures
            cell == 0 ==> object == 0,
            cell != 0 ==> object == aligned(
                cell + self.phase,
                self.align as int,
                self.offset as int,
            ),
    {
        if cell != 0 {
            let region: usize = cell + self.phase;
            let rem: usize = (region + self.offset) % self.align;
            proof {
                lemma_negative_mod(region + self.offset, self.align as int);
            }
            if rem == 0 {
                region
            } else {
                region + (self.align - rem)
            }
        } else {
            cell
        }
    }
}

proof fn lemma_negative_mod(x: int, m: int)
    requires
        m > 0,
    ensures
        (-x) % m == (if x % m == 0 {
            0
        } else {
            m - x % m
        }),
{
    vstd::arithmetic::div_mod::lemma_fundamental_div_mod(x, m);
    let q = x / m;
    let r = x % m;
    vstd::arithmetic::div_mod::lemma_mod_bound(x, m);
    if r == 0 {
        assert(-x == m * (-q) + 0) by (nonlinear_arith)
            requires
                x == m * q + r,
                r == 0,
        ;
        vstd::arithmetic::div_mod::lemma_fundamental_div_mod_converse_mod(-x, m, -q, 0);
    } else {
        assert(-x == m * (-q - 1) + (m - r)) by (nonlinear_arith)
            requires
                x == m * q + r,
        ;
        vstd::arithmetic::div_mod::lemma_fundamental_div_mod_converse_mod(-x, m, -q - 1, m - r);
    }
}

/// The start phases are taken in turn: that of the object after `n` others is the remainder of `n`
/// by the number of phases. `states` are the states of a fresh allocator between its objects.
pub proof fn law_phases_rotate(states: Seq<LargeObjectAllocator>, n: int)
    requires
        0 <= n < states.len(),
        states[0].range > 1,
        states[0].phase == 0,
        forall|i: int|
            0 <= i < states.len() - 1 ==> (#[trigger] states[i + 1]).range == states[i].range
                && states[i + 1].phase == (states[i].phase + 1) % (states[i].range as int),
    ensures
        states[n].range == states[0].range,
        states[n].phase == n % (states[0].range as int),
    decreases n,
{
    let range = states[0].range as int;
    if n > 0 {
        law_phases_rotate(states, n - 1);
        assert(states[n - 1 + 1].range == states[n - 1].range);
        vstd::arithmetic::div_mod::lemma_add_mod_noop(n - 1, 1, range);
        vstd::arithmetic::div_mod::lemma_small_mod(1, range as nat);
    } else {
        vstd::arithmetic::div_mod::lemma_small_mod(0, range as nat);
    }
}

/// `x` rounded up lies between `x` and `x + align`, and is a multiple of `align`.
proof fn lemma_rounded_up(x: int, align: int)
    requires
        x >= 0,
        align > 0,
    ensures
        x <= rounded_up(x, align) < x + align,
        rounded_up(x, align) % align == 0,
{
    let q = (x + align - 1) / align;
    vstd::arithmetic::div_mod::lemma_fundamental_div_mod(x + align - 1, align);
    vstd::arithmetic::div_mod::lemma_mod_bound(x + align - 1, align);
    vstd::arithmetic::mul::lemma_mul_is_commutative(align, q);
    vstd::arithmetic::div_mod::lemma_mod_multiples_basic(q, align);
}

/// Of two powers of two, the lesser divides the greater.
proof fn lemma_powers_divide(a: nat, b: nat)
    requires
        a <= b,
    ensures
        power2::pow2(b) % power2::pow2(a) == 0,
{
    power2::lemma_pow2_pos(a);
    power2::lemma_pow2_adds(a, (b - a) as nat);
    vstd::arithmetic::mul::lemma_mul_is_commutative(
        power2::pow2(a) as int,
        power2::pow2((b - a) as nat) as int,
    );
    vstd::arithmetic::div_mod::lemma_mod_multiples_basic(
        power2::pow2((b - a) as nat) as int,
        power2::pow2(a) as int,
    );
}

/// A multiple of `d` that is greater than another one, less `d`, is at least that one.
proof fn lemma_multiples_apart(a: int, b: int, d: int)
    requires
        d > 0,
        a % d == 0,
        b % d == 0,
        a > b - d,
    ensures
        a >= b,
{
    vstd::arithmetic::div_mod::lemma_fundamental_div_mod(a, d);
    vstd::arithmetic::div_mod::lemma_fundamental_div_mod(b, d);
    assert(a >= b) by (nonlinear_arith)
        requires
            d > 0,
            a == d * (a / d),
            b == d * (b / d),
            a > b - d,
    ;
}

/// The pad before an object is always a multiple of the alignment and less than a page. It is the
/// cache lines of the phase, rounded up, exactly in the first phase and where these lines and the
/// alignment together fit in a page; else there is none.
pub proof fn law_pad_is_less_than_a_page(k: int, align: usize)
    requires
        0 <= k < MAX_PHASE_LINES,
        is_alignment(align),
    ensures
        0 <= pad(k, align as int) < BYTES_IN_PAGE,
        pad(k, align as int) % (align as int) == 0,
        pad(k, align as int) == (if k == 0 || k * 64 + align <= BYTES_IN_PAGE {
            rounded_up(k * 64, align as int)
        } else {
            0
        }),
{
    let n = choose|n: nat| align == #[trigger] power2::pow2(n);
    power2::lemma_pow2_pos(n);
    lemma_rounded_up(k * 64, align as int);
    vstd::arithmetic::div_mod::lemma_small_mod(0, align as nat);
    power2::lemma2_to64();
    if k == 0 {
        assert((0 + align - 1) / (align as int) == 0) by (nonlinear_arith)
            requires
                align >= 1,
        ;
    } else if k * 64 + align > 4096 {
        let p = rounded_up(k * 64, align as int);
        if n <= 12 {
            lemma_powers_divide(n, 12);
            lemma_multiples_apart(p, 4096, align as int);
        } else {
            power2::lemma_pow2_strictly_increases(12, n);
            lemma_multiples_apart(p, align as int, align as int);
        }
    }
}

/// An alignment of at most a cache line does not change the pad.
pub proof fn law_small_alignments_keep_the_pad(k: int, align: usize)
    requires
        0 <= k < MAX_PHASE_LINES,
        is_alignment(align),
        align <= BYTES_IN_CACHE_LINE,
    ensures
        pad(k, align as int) == k * 64,
{
    let n = choose|n: nat| align == #[trigger] power2::pow2(n);
    power2::lemma_pow2_pos(n);
    power2::lemma2_to64();
    if n > 6 {
        power2::lemma_pow2_strictly_increases(6, n);
    }
    lemma_powers_divide(n, 6);
    lemma_rounded_up(k * 64, align as int);
    let a = align as int;
    vstd::arithmetic::div_mod::lemma_fundamental_div_mod(64, a);
    let q = 64int / a;
    assert((k * 64) == (k * q) * a) by (nonlinear_arith)
        requires
            64 == a * q,
    ;
    vstd::arithmetic::div_mod::lemma_mod_multiples_basic(k * q, a);
    let p = rounded_up(k * 64, a);
    if p > k * 64 {
        lemma_multiples_apart(k * 64, p, a);
    }
}

/// The memory of an object is found again from its address exactly if the object starts in the first
/// page of it: rounded down to a page, the address is then where the memory starts. That is so
/// wherever pad and alignment together fit in a page.
pub proof fn law_the_cell_is_recovered(cell: int, phase: int, align: usize, offset: int)
    requires
        cell >= 0,
        cell % (BYTES_IN_PAGE as int) == 0,
        phase >= 0,
        align > 0,
    ensures
        ({
            let object = aligned(cell + phase, align as int, offset);
            &&& object - object % (BYTES_IN_PAGE as int) == cell <==> object < cell + BYTES_IN_PAGE
            &&& phase + align <= BYTES_IN_PAGE ==> object < cell + BYTES_IN_PAGE
            &&& (object + offset) % (align as int) == 0
        }),
{
    let region = cell + phase;
    let object = aligned(region, align as int, offset);
    lemma_aligned(region, align as int, offset);
    vstd::arithmetic::div_mod::lemma_mod_bound(object, 4096);
    if object < cell + 4096 {
        vstd::arithmetic::div_mod::lemma_fundamental_div_mod(cell, 4096);
        vstd::arithmetic::div_mod::lemma_fundamental_div_mod_converse_mod(
            object,
            4096,
            cell / 4096,
            object - cell,
        );
    }
}

/// An object whose alignment is at most a page starts in the first page of its memory, whatever its
/// phase and its offset are. So rounding its address down to a page recovers the memory.
pub proof fn law_objects_start_in_their_first_page(cell: int, k: int, align: usize, offset: int)
    requires
        cell >= 0,
        cell % (BYTES_IN_PAGE as int) == 0,
        0 <= k < MAX_PHASE_LINES,
        is_alignment(align),
        align <= BYTES_IN_PAGE,
    ensures
        ({
            let object = aligned(cell + pad(k, align as int), align as int, offset);
            &&& cell <= object < cell + BYTES_IN_PAGE
            &&& object - object % (BYTES_IN_PAGE as int) == cell
        }),
{
    let n = choose|n: nat| align == #[trigger] power2::pow2(n);
    let a = align as int;
    let p = pad(k, a);
    power2::lemma_pow2_pos(n);
    power2::lemma2_to64();
    if n > 12 {
        power2::lemma_pow2_strictly_increases(12, n);
    }
    lemma_powers_divide(n, 12);
    law_pad_is_less_than_a_page(k, align);
    if p + a > 4096 {
        lemma_multiples_apart(p, 4096, a);
    }
    lemma_aligned(cell + p, a, offset);
    law_the_cell_is_recovered(cell, p, align, offset);
}

proof fn lemma_aligned(region: int, align: int, offset: int)
    requires
        align > 0,
    ensures
        (aligned(region, align, offset) + offset) % align == 0,
        region <= aligned(region, align, offset) < region + align,
{
    let x = region + offset;
    vstd::arithmetic::div_mod::lemma_mod_bound(-x, align);
    vstd::arithmetic::div_mod::lemma_add_mod_noop_right(x, -x, align);
    vstd::arithmetic::div_mod::lemma_small_mod(0, align as nat);
}

/// The object fits in the pages that are allocated for its request, wherever in them it starts.
pub proof fn law_the_object_fits_in_its_pages(
    cell: int,
    size: usize,
    request: AllocRequest,
    min_alignment: usize,
    pages: int,
)
    requires
        cell >= 0,
        min_alignment > 0,
        request.align > 0,
        request.size == size + request.phase,
        (cell + request.phase + request.offset) % (min_alignment as int) == 0,
        request.align > min_alignment ==> request.align as int % (min_alignment as int) == 0,
        request.align <= min_alignment ==> min_alignment as int % (request.align as int) == 0,
        pages == rounded_up(
            max_aligned_size(request.size, request.align, min_alignment),
            4096,
        ) / 4096,
    ensures
        aligned(cell + request.phase, request.align as int, request.offset as int) + size <= cell
            + pages * 4096,
{
    let a = request.align as int;
    let m = min_alignment as int;
    let region = cell + request.phase;
    let x = region + request.offset;
    let delta = (-x) % a;
    let bytes = max_aligned_size(request.size, request.align, min_alignment);
    lemma_negative_mod(x, a);
    vstd::arithmetic::div_mod::lemma_mod_bound(-x, a);
    lemma_rounded_up(bytes, 4096);
    vstd::arithmetic::div_mod::lemma_fundamental_div_mod(rounded_up(bytes, 4096), 4096);
    assert(pages * 4096 == rounded_up(bytes, 4096));
    vstd::arithmetic::div_mod::lemma_fundamental_div_mod(x, m);
    if a <= m {
        vstd::arithmetic::div_mod::lemma_fundamental_div_mod(m, a);
        let q = x / m;
        let r = m / a;
        assert(x == (q * r) * a) by (nonlinear_arith)
            requires
                x == m * q,
                m == a * r,
        ;
        vstd::arithmetic::div_mod::lemma_mod_multiples_basic(q * r, a);
        assert(delta == 0);
    } else if x % a != 0 {
        let rest = x % a;
        vstd::arithmetic::div_mod::lemma_fundamental_div_mod(x, a);
        vstd::arithmetic::div_mod::lemma_fundamental_div_mod(a, m);
        vstd::arithmetic::div_mod::lemma_mod_bound(x, a);
        let q = x / m;
        let p = x / a;
        let r = a / m;
        assert(rest == (q - r * p) * m) by (nonlinear_arith)
            requires
                x == m * q,
                x == a * p + rest,
                a == m * r,
        ;
        vstd::arithmetic::div_mod::lemma_mod_multiples_basic(q - r * p, m);
        vstd::arithmetic::div_mod::lemma_small_mod(0, m as nat);
        lemma_multiples_apart(rest, m, m);
    }
}

/// Text is read as a number digit by digit, maybe after one plus sign: a digit behind a number makes it
/// ten times greater, plus the digit, as long as that fits in a word. No other text is a number.
pub proof fn law_numbers_are_read_digit_by_digit(s: Seq<u8>, c: u8)
    ensures
        parsed(Seq::empty()) is None,
        parsed(seq![43u8]) is None,
        48 <= c <= 57 ==> parsed(seq![c]) == Some((c - 48) as usize),
        48 <= c <= 57 ==> parsed(seq![43u8, c]) == Some((c - 48) as usize),
        s.len() > 0 && 48 <= c <= 57 && parsed(s) is Some ==> ({
            let n = 10 * parsed(s).unwrap() + (c - 48);
            parsed(s.push(c)) == (if n <= usize::MAX {
                Some(n as usize)
            } else {
                None
            })
        }),
        c < 48 || c > 57 ==> parsed(s.push(c)) is None,
        s.len() > 0 && s != seq![43u8] && parsed(s) is None ==> parsed(s.push(c)) is None,
{
    let empty = Seq::<u8>::empty();
    assert(seq![43u8].skip(1) =~= empty);
    assert(unsigned(empty) =~= empty);
    if 48 <= c <= 57 {
        let one = seq![c];
        assert(unsigned(one) =~= one);
        assert(one.drop_last() =~= empty);
        assert(decimal(empty) == 0);
        assert(decimal(one) == c - 48);
        assert(is_decimal(one));
        assert(seq![43u8, c].skip(1) =~= one);
        assert(unsigned(seq![43u8, c]) == one);
    }
    let longer = s.push(c);
    if s.len() > 0 {
        let d = unsigned(s);
        assert(unsigned(longer) =~= d.push(c));
        assert(d.push(c).drop_last() =~= d);
        if is_decimal(d) {
            assert(decimal(d.push(c)) == 10 * decimal(d) + (c - 48) as nat);
            if 48 <= c <= 57 {
                assert forall|i: int| 0 <= i < d.push(c).len() implies 48 <= #[trigger] d.push(c)[i]
                    <= 57 by {
                    if i < d.len() {
                        assert(d.push(c)[i] == d[i]);
                    }
                }
                assert(is_decimal(d.push(c)));
            }
        } else if d.len() > 0 {
            let i = choose|i: int| 0 <= i < d.len() && !(48 <= #[trigger] d[i] <= 57);
            assert(d.push(c)[i] == d[i]);
            assert(!is_decimal(d.push(c)));
        } else {
            assert(s =~= seq![43u8]);
        }
        if c < 48 || c > 57 {
            assert(d.push(c)[d.len() as int] == c);
        }
    } else {
        assert(longer =~= seq![c]);
        if c < 48 || c > 57 {
            assert(c == 43 || seq![c][0] == c);
            if c != 43 {
                assert(unsigned(longer) == longer);
                assert(longer[0] == c);
            }
        }
    }
}

/// The setting asks for the number that it is the text of, if that is at most 64, and for 16 phases
/// otherwise.
pub proof fn law_a_setting_that_cannot_be_met_gives_the_default(value: Option<Seq<u8>>)
    ensures
        value is None ==> phase_range(value) == 16,
        value is Some && parsed(value.unwrap()) is None ==> phase_range(value) == 16,
        value is Some && parsed(value.unwrap()) is Some && parsed(value.unwrap()).unwrap() > 64
            ==> phase_range(value) == 16,
        value is Some && parsed(value.unwrap()) is Some && parsed(value.unwrap()).unwrap() <= 64
            ==> phase_range(value) == parsed(value.unwrap()).unwrap(),
{
}

/// Rounding up gives the least multiple of the alignment that is not less.
pub proof fn law_rounding_up_gives_the_least_multiple(x: int, align: int, m: int)
    requires
        x >= 0,
        align > 0,
    ensures
        x <= rounded_up(x, align),
        rounded_up(x, align) % align == 0,
        m >= x && m % align == 0 ==> rounded_up(x, align) <= m,
{
    lemma_rounded_up(x, align);
    if m >= x && m % align == 0 {
        lemma_multiples_apart(m, rounded_up(x, align), align);
    }
}

/// The pad before the next object, told from the phase. Without phases there is none. With them it is
/// the least multiple of the alignment that holds a cache line for each phase before, or none where that
/// is not less than a page.
pub proof fn law_the_next_pad_follows_from_the_phase(a: LargeObjectAllocator, align: usize, m: int)
    requires
        is_alignment(align),
    ensures
        a.range <= 1 ==> a.next_pad(align) == 0,
        a.range > 1 && 64 * a.phase <= m < 4096 && m % (align as int) == 0 ==> 64 * a.phase
            <= a.next_pad(align) <= m,
        a.range > 1 && a.next_pad(align) != 0 ==> 64 * a.phase <= a.next_pad(align),
        a.next_pad(align) % (align as int) == 0,
        0 <= a.next_pad(align) < 4096,
{
    power2::lemma_pow2_pos(choose|n: nat| align == #[trigger] power2::pow2(n));
    vstd::arithmetic::div_mod::lemma_small_mod(0, align as nat);
    lemma_rounded_up(a.phase * 64, align as int);
    law_rounding_up_gives_the_least_multiple(a.phase * 64, align as int, m);
}

/// The phase moves on by one with each object, and back to the first one after the last. Without phases
/// it stays.
pub proof fn law_the_phase_moves_on_by_one(a: LargeObjectAllocator)
    ensures
        a.range <= 1 ==> a.phase_after() == a.phase,
        a.range > 1 && a.phase + 1 < a.range ==> a.phase_after() == a.phase + 1,
        a.range > 1 && a.phase + 1 == a.range ==> a.phase_after() == 0,
{
    if a.range > 1 && a.phase + 1 < a.range {
        vstd::arithmetic::div_mod::lemma_small_mod((a.phase + 1) as nat, a.range as nat);
    } else if a.range > 1 && a.phase + 1 == a.range {
        vstd::arithmetic::div_mod::lemma_mod_self_0(a.range as int);
    }
}

/// An object lies at the first address of its memory at which it is aligned.
pub proof fn law_an_object_is_at_the_first_aligned_address(
    region: int,
    align: int,
    offset: int,
    address: int,
)
    requires
        align > 0,
    ensures
        region <= aligned(region, align, offset),
        (aligned(region, align, offset) + offset) % align == 0,
        address >= region && (address + offset) % align == 0 ==> aligned(region, align, offset)
            <= address,
{
    lemma_aligned(region, align, offset);
    if address >= region && (address + offset) % align == 0 {
        lemma_multiples_apart(address + offset, aligned(region, align, offset) + offset, align);
    }
}

/// The pages that are asked for hold the object and what aligning it can take, and no page more. Where
/// the memory is aligned enough already, aligning takes nothing.
pub proof fn law_no_page_more_than_needed_is_asked_for(
    size: usize,
    align: usize,
    min_alignment: usize,
)
    ensures
        ({
            let pages = rounded_up(max_aligned_size(size, align, min_alignment), 4096) / 4096;
            &&& align <= min_alignment ==> size <= pages * 4096 < size + 4096
            &&& align > min_alignment ==> size + (align - min_alignment) <= pages * 4096 < size + (
            align - min_alignment) + 4096
        }),
{
    let bytes = max_aligned_size(size, align, min_alignment);
    lemma_rounded_up(bytes, 4096);
    vstd::arithmetic::div_mod::lemma_fundamental_div_mod(rounded_up(bytes, 4096), 4096);
}

/// Every power of two is an alignment.
pub proof fn law_powers_of_two_are_alignments(align: usize, n: nat)
    ensures
        align == power2::pow2(n) ==> is_alignment(align),
{
}

/// An allocator of at most 64 phases is in order if its phase is one of them. Without phases, its phase
/// does not matter.
pub proof fn law_what_an_allocator_needs(a: LargeObjectAllocator)
    ensures
        a.range <= 1 ==> a.wf(),
        1 < a.range <= 64 ==> (a.wf() <==> a.phase < a.range),
        a.range > 64 ==> !a.wf(),
{
}

} // verus!
