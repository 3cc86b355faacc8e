//! The most recent audio on its way to the speakers.
//!
//! Every packet is seen on its way through; the now playing visualizer then reads the
//! spectrum out of it. What is kept here is which samples there are to look at, whether
//! they are recent enough, where the beats are, and in which order a transform wants its
//! input. Samples are opaque: whoever owns the sound works out what they mean.
//!
//! Times are in nanoseconds.

use vstd::arithmetic::power2::pow2;
use vstd::prelude::*;

verus! {

/// Samples kept for analysis. One window at 44.1kHz is about 23ms of audio, short enough to
/// track a beat and long enough to resolve a bass note.
pub const WINDOW: usize = 1024;
/// Audio older than this counts as silence, so the bars settle when playback stops or when
/// a backend hands us nothing to look at.
pub const STALE_AFTER: u128 = 400_000_000;
/// The shortest gap between beats, which caps detection at about 270 BPM and stops one kick
/// being counted twice.
pub const REFRACTORY: u128 = 220_000_000;

// ---------------------------------------------------------------------------
// The window.
// ---------------------------------------------------------------------------

/// A fixed window of mono samples, overwritten oldest first.
pub struct Window<T> {
    samples: Vec<T>,
    next: usize,
    filled: bool,
}

/// The last [`WINDOW`] of a stretch of samples, or all of it where it is shorter.
pub open spec fn tail<T>(samples: Seq<T>) -> Seq<T> {
    if samples.len() <= WINDOW {
        samples
    } else {
        samples.skip(samples.len() - WINDOW)
    }
}

impl<T> View for Window<T> {
    type V = Seq<T>;

    /// What the window has heard, oldest first.
    closed spec fn view(&self) -> Seq<T> {
        if self.filled {
            self.samples@.skip(self.next as int) + self.samples@.take(self.next as int)
        } else {
            self.samples@.take(self.next as int)
        }
    }
}

impl<T: Copy> Window<T> {
    /// The window has its size, and the place that is written next lies in it.
    pub closed spec fn wf(&self) -> bool {
        self.samples@.len() == WINDOW && self.next < WINDOW
    }

    /// A window that has heard nothing. `silence` stands where nothing was heard yet.
    pub fn new(silence: T) -> (window: Self)
        ensures
            window.wf(),
            window@ == Seq::<T>::empty(),
    {
        let mut samples: Vec<T> = Vec::new();
        for i in 0..WINDOW
            invariant
                samples@.len() == i,
        {
            samples.push(silence);
        }
        let window = Window { samples, next: 0, filled: false };
        assert(window@ =~= Seq::<T>::empty());
        window
    }

    /// Hear one sample; the oldest one makes room for it.
    pub fn push(&mut self, sample: T)
        requires
            old(self).wf(),
        ensures
            final(self).wf(),
            final(self)@ == tail(old(self)@.push(sample)),
    {
        let ghost before = self@;
        let index: usize = self.next;
        self.samples.set(index, sample);
        self.next = if index + 1 == WINDOW {
            0
        } else {
            index + 1
        };
        if self.next == 0 {
            self.filled = true;
        }
        assert(self@ =~= tail(before.push(sample)));
    }

    /// The whole window, oldest first, so it is one continuous stretch of audio; or nothing
    /// while the window is not full, which is not enough to analyse without reading the
    /// silence it was made with.
    pub fn ordered(&self) -> (samples: Option<Vec<T>>)
        requires
            self.wf(),
        ensures
            samples is Some <==> self@.len() == WINDOW,
            samples matches Some(samples) ==> samples@ == self@,
    {
        if !self.filled {
            return None;
        }
        let mut ordered: Vec<T> = Vec::new();
        for i in self.next..WINDOW
            invariant
                self.wf(),
                ordered@ =~= self.samples@.subrange(self.next as int, i as int),
        {
            ordered.push(self.samples[i]);
        }
        for i in 0..self.next
            invariant
                self.wf(),
                ordered@ =~= self.samples@.skip(self.next as int) + self.samples@.take(i as int),
        {
            ordered.push(self.samples[i]);
        }
        Some(ordered)
    }
}

// ---------------------------------------------------------------------------
// Beats.
// ---------------------------------------------------------------------------

/// When the last beat was, and how hard it hit. The strength is given by its bits.
pub struct BeatDetector {
    pub last_beat: Option<u128>,
    pub strength: u32,
}

/// Whether a beat may be counted at `now`.
pub open spec fn beat_due(last_beat: Option<u128>, now: u128) -> bool {
    last_beat matches Some(last) ==> now - last >= REFRACTORY
}

impl BeatDetector {
    /// A detector that has heard no beat.
    pub fn new() -> (detector: Self)
        ensures
            detector.last_beat is None,
            detector.strength == 0,
    {
        BeatDetector { last_beat: None, strength: 0 }
    }

    /// Decide whether a beat just landed. `loud` says whether the bass is loud enough for
    /// one, `strength` how far past the average it got, so a gentle beat pulses gently. One
    /// kick is not counted twice.
    pub fn feed(&mut self, loud: bool, strength: u32, now: u128) -> (beat: bool)
        ensures
            beat == (loud && beat_due(old(self).last_beat, now)),
            beat ==> final(self).last_beat == Some(now) && final(self).strength == strength,
            !beat ==> final(self).last_beat == old(self).last_beat && final(self).strength
                == old(self).strength,
            !loud ==> !beat,
            old(self).last_beat is None ==> beat == loud,
            beat ==> forall|later: u128|
                later < now + REFRACTORY ==> !#[trigger] beat_due(final(self).last_beat, later),
    {
        let due = match self.last_beat {
            Some(last) => now.saturating_sub(last) >= REFRACTORY,
            None => true,
        };
        if loud && due {
            self.strength = strength;
            self.last_beat = Some(now);
            return true;
        }
        false
    }
}

// ---------------------------------------------------------------------------
// The tap.
// ---------------------------------------------------------------------------

/// The most recent audio on its way to the speakers.
pub struct AudioTap<T> {
    pub window: Window<T>,
    /// When the last packet came through, if one ever has.
    pub last_packet: Option<u128>,
    pub beat: BeatDetector,
}

/// Whether a packet that came at `last` is recent enough at `now`.
pub open spec fn live_at(last: Option<u128>, now: u128) -> bool {
    last matches Some(at) && now - at < STALE_AFTER
}

impl<T: Copy> AudioTap<T> {
    /// A tap that has heard nothing.
    pub fn new(silence: T) -> (tap: Self)
        ensures
            tap.window.wf(),
            tap.window@ == Seq::<T>::empty(),
            tap.last_packet is None,
            tap.beat.last_beat is None,
    {
        AudioTap { window: Window::new(silence), last_packet: None, beat: BeatDetector::new() }
    }

    /// Take a copy of a packet on its way to the speakers: `mono` holds one sample for each
    /// two of its `length` interleaved ones. An empty packet is no sign of life.
    ///
    /// Only the tail of a long packet is kept: it is the part closest to what is being
    /// heard.
    pub fn push(&mut self, length: usize, mono: &Vec<T>, now: u128)
        requires
            old(self).window.wf(),
            mono@.len() == length / 2,
        ensures
            final(self).window.wf(),
            final(self).beat == old(self).beat,
            length == 0 ==> final(self).last_packet == old(self).last_packet,
            length == 0 ==> final(self).window@ == old(self).window@,
            length > 0 ==> final(self).last_packet == Some(now) && final(self).window@ == tail(
                old(self).window@ + mono@,
            ),
            length > 0 ==> live_at(final(self).last_packet, now),
            mono@.len() > 0 ==> final(self).window@.len() > 0 && final(self).window@.last()
                == mono@.last(),
            mono@.len() >= WINDOW ==> final(self).window@ == mono@.skip(mono@.len() - WINDOW),
    {
        if length == 0 {
            return;
        }
        assert(old(self).window@ + mono@.take(0) =~= old(self).window@);
        proof {
            self.window.lemma_len();
        }
        for i in 0..mono.len()
            invariant
                self.window.wf(),
                self.beat == old(self).beat,
                self.last_packet == old(self).last_packet,
                self.window@ == tail(old(self).window@ + mono@.take(i as int)),
        {
            let ghost before = old(self).window@ + mono@.take(i as int);
            self.window.push(mono[i]);
            proof {
                let after = old(self).window@ + mono@.take(i + 1);
                assert(after =~= before.push(mono@[i as int]));
                assert(tail(tail(before).push(mono@[i as int])) =~= tail(after));
            }
        }
        assert(mono@.take(mono@.len() as int) =~= mono@);
        assert(mono@.len() >= WINDOW ==> self.window@ =~= mono@.skip(mono@.len() - WINDOW));
        self.last_packet = Some(now);
    }

    /// Whether audio has arrived recently enough to be worth drawing.
    pub fn is_live(&self, now: u128) -> (live: bool)
        ensures
            live == live_at(self.last_packet, now),
    {
        match self.last_packet {
            Some(last) => now.saturating_sub(last) < STALE_AFTER,
            None => false,
        }
    }

    /// The samples to work `count` bands out from, or nothing when no bands are wanted or
    /// there is no recent audio to analyse.
    pub fn bands(&self, count: usize, now: u128) -> (samples: Option<Vec<T>>)
        requires
            self.window.wf(),
        ensures
            samples is Some <==> count > 0 && live_at(self.last_packet, now) && self.window@.len()
                == WINDOW,
            samples matches Some(samples) ==> samples@ == self.window@,
    {
        if count == 0 || !self.is_live(now) {
            return None;
        }
        self.window.ordered()
    }
}

impl<T: Copy> Window<T> {
    /// A window never holds more than its size.
    pub proof fn lemma_len(&self)
        requires
            self.wf(),
        ensures
            self@.len() <= WINDOW,
            tail(self@) == self@,
    {
    }
}

/// The loudest of the levels from `first` on, up to `last`.
pub open spec fn loudest(levels: Seq<u32>, first: int, last: int) -> u32
    decreases last - first,
{
    if first >= last {
        0
    } else {
        let before = loudest(levels, first, last - 1);
        if levels[last - 1] > before {
            levels[last - 1]
        } else {
            before
        }
    }
}

/// The loudest bin of a band, so a narrow tone is not averaged away: of those from `first`
/// on, up to `last` or to the end. A level is given by the bits of a number that is not
/// negative.
pub fn band_peak(magnitudes: &Vec<u32>, first: usize, last: usize) -> (peak: u32)
    ensures
        peak == loudest(
            magnitudes@,
            first as int,
            vstd::math::min(last as int, magnitudes@.len() as int),
        ),
{
    let end: usize = if last < magnitudes.len() {
        last
    } else {
        magnitudes.len()
    };
    if first >= end {
        return 0;
    }
    let mut peak: u32 = 0;
    for i in first..end
        invariant
            first <= end,
            end <= magnitudes@.len(),
            peak == loudest(magnitudes@, first as int, i as int),
    {
        if magnitudes[i] > peak {
            peak = magnitudes[i];
        }
    }
    peak
}

/// The loudest bin of each band.
pub open spec fn peaks_of(magnitudes: Seq<u32>, ranges: Seq<(usize, usize)>) -> Seq<u32> {
    ranges.map_values(
        |range: (usize, usize)|
            loudest(
                magnitudes,
                range.0 as int,
                vstd::math::min(range.1 as int, magnitudes.len() as int),
            ),
    )
}

/// The loudest bin of each band. A band is given by its first bin and by the one that follows
/// its last.
pub fn band_peaks(magnitudes: &Vec<u32>, ranges: &Vec<(usize, usize)>) -> (peaks: Vec<u32>)
    ensures
        peaks@ == peaks_of(magnitudes@, ranges@),
        peaks@.len() == ranges@.len(),
{
    let mut peaks: Vec<u32> = Vec::new();
    for i in 0..ranges.len()
        invariant
            peaks@ =~= peaks_of(magnitudes@, ranges@).take(i as int),
    {
        let (first, last) = ranges[i];
        peaks.push(band_peak(magnitudes, first, last));
    }
    assert(peaks_of(magnitudes@, ranges@).take(ranges@.len() as int) =~= peaks_of(
        magnitudes@,
        ranges@,
    ));
    peaks
}

/// The highest level that is shown: the bits of one.
pub const FULL: u32 = 0x3f80_0000;
/// From here on bits stand for numbers below zero.
pub const NEGATIVE: u32 = 0x8000_0000;

/// A level as it is shown: below nothing is nothing, and none is more than one.
pub open spec fn shown_level(level: u32) -> u32 {
    if level >= NEGATIVE {
        0
    } else if level > FULL {
        FULL
    } else {
        level
    }
}

/// The levels of the bands as they are shown, each 0 to 1. Levels are given by their bits.
pub fn shown_levels(levels: &Vec<u32>) -> (shown: Vec<u32>)
    ensures
        shown@ == levels@.map_values(|level: u32| shown_level(level)),
        shown@.len() == levels@.len(),
        forall|i: int| 0 <= i < shown@.len() ==> #[trigger] shown@[i] <= FULL,
{
    let mut shown: Vec<u32> = Vec::new();
    for i in 0..levels.len()
        invariant
            shown@ =~= levels@.take(i as int).map_values(|level: u32| shown_level(level)),
            forall|j: int| 0 <= j < i ==> #[trigger] shown@[j] <= FULL,
    {
        let level = levels[i];
        shown.push(
            if level >= NEGATIVE {
                0
            } else if level > FULL {
                FULL
            } else {
                level
            },
        );
    }
    assert(levels@.take(levels@.len() as int) =~= levels@);
    shown
}

// ---------------------------------------------------------------------------
// The order a transform wants its input in.
// ---------------------------------------------------------------------------

/// `value` with its lowest `bits` bits in reverse order.
pub open spec fn reversed(value: nat, bits: nat) -> nat
    decreases bits,
{
    if bits == 0 {
        0
    } else {
        reversed(value / 2, (bits - 1) as nat) + (value % 2) * pow2((bits - 1) as nat)
    }
}

/// A list with its items at the places with reversed numbers.
pub open spec fn reordered<T>(items: Seq<T>, bits: nat) -> Seq<T> {
    Seq::new(items.len(), |i: int| items[reversed(i as nat, bits) as int])
}

/// A reversed number has no more bits.
proof fn lemma_reversed_bound(value: nat, bits: nat)
    ensures
        reversed(value, bits) < pow2(bits),
    decreases bits,
{
    vstd::arithmetic::power2::lemma_pow2_pos(bits);
    if bits > 0 {
        lemma_reversed_bound(value / 2, (bits - 1) as nat);
        vstd::arithmetic::power2::lemma_pow2_unfold(bits);
        let half = pow2((bits - 1) as nat);
        assert((value % 2) * half <= half) by (nonlinear_arith)
            requires
                value % 2 <= 1,
        ;
    }
}

/// Reversing from the other end: the highest bit becomes the lowest.
proof fn lemma_reversed_top(value: nat, bits: nat)
    requires
        bits > 0,
        value < pow2(bits),
    ensures
        reversed(value, bits) == 2 * reversed(
            value % pow2((bits - 1) as nat),
            (bits - 1) as nat,
        ) + value / pow2((bits - 1) as nat),
    decreases bits,
{
    let less = (bits - 1) as nat;
    let half = pow2(less);
    vstd::arithmetic::power2::lemma_pow2_pos(less);
    vstd::arithmetic::power2::lemma_pow2_unfold(bits);
    if bits == 1 {
        vstd::arithmetic::power2::lemma2_to64();
        assert((value % 2) * half == value) by (nonlinear_arith)
            requires
                half == 1,
                value % 2 == value,
        ;
        assert(value / half == value) by (nonlinear_arith)
            requires
                half == 1,
        ;
        assert(reversed(value / 2, 0) == 0 && reversed(value % half, 0) == 0);
    } else {
        let least = (bits - 2) as nat;
        let quarter = pow2(least);
        vstd::arithmetic::power2::lemma_pow2_pos(least);
        vstd::arithmetic::power2::lemma_pow2_unfold(less);
        assert(half == 2 * quarter);
        let rest = value / 2;
        assert(rest < half);
        lemma_reversed_top(rest, less);
        // value == 2 * rest + value % 2, so what is left of value below its highest bit is
        // twice what is left of rest, and the highest bit is the same.
        let low = value % half;
        let top = value / half;
        assert(rest / quarter == top && rest % quarter == low / 2 && low % 2 == value % 2) by {
            vstd::arithmetic::div_mod::lemma_fundamental_div_mod(value as int, half as int);
            assert(value == half * top + low);
            assert(half * top == 2 * (quarter * top)) by (nonlinear_arith)
                requires
                    half == 2 * quarter,
            ;
            assert(rest == quarter * top + low / 2);
            assert(low / 2 < quarter);
            vstd::arithmetic::div_mod::lemma_fundamental_div_mod_converse(
                rest as int,
                quarter as int,
                top as int,
                (low / 2) as int,
            );
        }
        // Unfold both sides once.
        assert(reversed(value, bits) == reversed(rest, less) + (value % 2) * half);
        assert(reversed(rest, less) == 2 * reversed(low / 2, least) + top);
        assert(reversed(low, less) == reversed(low / 2, least) + (low % 2) * quarter);
        assert((value % 2) * half == 2 * ((low % 2) * quarter)) by (nonlinear_arith)
            requires
                half == 2 * quarter,
                low % 2 == value % 2,
        ;
    }
}

/// Reversing twice leads back.
pub proof fn law_reversing_twice_leads_back(value: nat, bits: nat)
    requires
        value < pow2(bits),
    ensures
        reversed(reversed(value, bits), bits) == value,
        reversed(value, bits) < pow2(bits),
    decreases bits,
{
    lemma_reversed_bound(value, bits);
    vstd::arithmetic::power2::lemma_pow2_pos(bits);
    if bits == 0 {
        vstd::arithmetic::power2::lemma2_to64();
    } else {
        let less = (bits - 1) as nat;
        let half = pow2(less);
        vstd::arithmetic::power2::lemma_pow2_pos(less);
        vstd::arithmetic::power2::lemma_pow2_unfold(bits);
        let rest = value / 2;
        assert(rest < half);
        law_reversing_twice_leads_back(rest, less);
        let turned = reversed(value, bits);
        let inner = reversed(rest, less);
        assert(turned == inner + (value % 2) * half);
        assert(inner < half);
        assert(turned % half == inner && turned / half == value % 2) by {
            vstd::arithmetic::div_mod::lemma_fundamental_div_mod_converse(
                turned as int,
                half as int,
                (value % 2) as int,
                inner as int,
            );
        }
        lemma_reversed_top(turned, bits);
    }
}

/// Reordering twice leaves everything where it was.
pub proof fn law_reordering_twice_changes_nothing<T>(items: Seq<T>, bits: nat)
    requires
        items.len() == pow2(bits),
    ensures
        reordered(reordered(items, bits), bits) == items,
{
    assert forall|i: int| 0 <= i < items.len() implies reordered(reordered(items, bits), bits)[i]
        == items[i] by {
        law_reversing_twice_leads_back(i as nat, bits);
    }
    assert(reordered(reordered(items, bits), bits) =~= items);
}

/// `value` with its lowest `bits` bits in reverse order.
fn reverse(value: usize, bits: u32) -> (turned: usize)
    requires
        bits < usize::BITS,
        value < pow2(bits as nat),
    ensures
        turned == reversed(value as nat, bits as nat),
        turned < pow2(bits as nat),
    decreases bits,
{
    proof {
        lemma_reversed_bound(value as nat, bits as nat);
        lemma_fits(bits as nat);
    }
    if bits == 0 {
        return 0;
    }
    proof {
        vstd::arithmetic::power2::lemma_pow2_unfold(bits as nat);
        lemma_fits((bits - 1) as nat);
    }
    let inner = reverse(value / 2, bits - 1);
    proof {
        let half = pow2((bits - 1) as nat);
        let low = value as nat % 2;
        assert(low == 1 ==> low * half == half) by (nonlinear_arith);
        assert(low == 0 ==> low * half == 0) by (nonlinear_arith);
    }
    if value % 2 == 1 {
        inner + power_of_two(bits - 1)
    } else {
        inner
    }
}

/// A power of two that a machine word holds.
proof fn lemma_fits(bits: nat)
    requires
        bits < usize::BITS,
    ensures
        0 < pow2(bits) <= usize::MAX,
        bits + 1 < usize::BITS ==> 2 * pow2(bits) <= usize::MAX,
{
    vstd::arithmetic::power2::lemma_pow2_pos(bits);
    vstd::arithmetic::power2::lemma2_to64();
    vstd::arithmetic::power2::lemma2_to64_rest();
    let top = (usize::BITS - 1) as nat;
    if bits < top {
        vstd::arithmetic::power2::lemma_pow2_strictly_increases(bits, top);
        vstd::arithmetic::power2::lemma_pow2_unfold(bits + 1);
        if bits + 1 < top {
            vstd::arithmetic::power2::lemma_pow2_strictly_increases(bits + 1, top);
        }
    }
}

/// Two to the `bits`.
fn power_of_two(bits: u32) -> (power: usize)
    requires
        bits < usize::BITS,
    ensures
        power == pow2(bits as nat),
{
    let mut power: usize = 1;
    proof {
        vstd::arithmetic::power2::lemma2_to64();
    }
    for i in 0..bits
        invariant
            bits < usize::BITS,
            power == pow2(i as nat),
    {
        proof {
            lemma_fits(i as nat);
            vstd::arithmetic::power2::lemma_pow2_unfold((i + 1) as nat);
        }
        power = 2 * power;
    }
    power
}

/// Put `items` into bit reversed order, which is where a radix 2 transform expects its
/// inputs to be. There are two to the `bits` of them.
pub fn reorder<T: Copy>(items: &mut Vec<T>, bits: u32)
    requires
        bits < usize::BITS,
        old(items)@.len() == pow2(bits as nat),
    ensures
        final(items)@ == reordered(old(items)@, bits as nat),
{
    let length: usize = items.len();
    let ghost before = items@;
    for source in 0..length
        invariant
            bits < usize::BITS,
            length == pow2(bits as nat),
            before.len() == length,
            items@.len() == length,
            forall|i: int|
                0 <= i < length && (i < source || reversed(i as nat, bits as nat) < source)
                    ==> #[trigger] items@[i] == before[reversed(i as nat, bits as nat) as int],
            forall|i: int|
                0 <= i < length && i >= source && reversed(i as nat, bits as nat) >= source
                    ==> #[trigger] items@[i] == before[i],
    {
        let target = reverse(source, bits);
        let ghost sofar = items@;
        proof {
            law_reversing_twice_leads_back(source as nat, bits as nat);
        }
        if source < target {
            let swapped = items[source];
            let other = items[target];
            items.set(source, other);
            items.set(target, swapped);
        }
        proof {
            assert forall|i: int|
                0 <= i < length && (i < source + 1 || reversed(i as nat, bits as nat) < source
                    + 1) implies #[trigger] items@[i] == before[reversed(
                i as nat,
                bits as nat,
            ) as int] by {
                law_reversing_twice_leads_back(i as nat, bits as nat);
                let turned = reversed(i as nat, bits as nat) as int;
                assert(i < source || turned < source ==> sofar[i] == before[turned]);
                if i == source {
                    assert(target >= source ==> sofar[target as int] == before[target as int]);
                } else if reversed(i as nat, bits as nat) == source {
                    assert(i == target);
                }
            }
            assert forall|i: int|
                0 <= i < length && i >= source + 1 && reversed(i as nat, bits as nat) >= source
                    + 1 implies #[trigger] items@[i] == before[i] by {
                law_reversing_twice_leads_back(i as nat, bits as nat);
                assert(sofar[i] == before[i]);
            }
        }
    }
    assert(items@ =~= reordered(before, bits as nat)) by {
        assert forall|i: int| 0 <= i < length implies items@[i] == reordered(
            before,
            bits as nat,
        )[i] by {}
    }
}

// ---------------------------------------------------------------------------
// What the tap promises.
// ---------------------------------------------------------------------------

/// Two kicks closer than the shortest gap between beats are one beat.
pub proof fn law_a_second_kick_too_soon_is_ignored(first: u128, second: u128)
    requires
        second - first < REFRACTORY,
    ensures
        !beat_due(Some(first), second),
{
}

/// The window holds the end of everything that came, however it was cut into packets.
pub proof fn law_the_cut_of_packets_does_not_matter<T>(heard: Seq<T>, one: Seq<T>, other: Seq<T>)
    ensures
        tail(tail(heard + one) + other) == tail(heard + (one + other)),
{
    assert(tail(tail(heard + one) + other) =~= tail(heard + (one + other)));
}

/// As soon as as many samples have come as the window holds, there is something to look at.
pub proof fn law_a_full_window_is_heard<T>(heard: Seq<T>, packet: Seq<T>)
    ensures
        tail(heard + packet).len() == WINDOW <==> heard.len() + packet.len() >= WINDOW,
        tail(heard + packet).len() == 1024 <==> heard.len() + packet.len() >= 1024,
        tail(heard + packet).len() <= 1024,
{
}

/// What the window holds after packets came one after the other.
pub open spec fn heard_after<T>(packets: Seq<Seq<T>>) -> Seq<T>
    decreases packets.len(),
{
    if packets.len() == 0 {
        Seq::empty()
    } else {
        tail(heard_after(packets.drop_last()) + packets.last())
    }
}

/// All samples of some packets, in order.
pub open spec fn all_samples<T>(packets: Seq<Seq<T>>) -> Seq<T>
    decreases packets.len(),
{
    if packets.len() == 0 {
        Seq::empty()
    } else {
        all_samples(packets.drop_last()) + packets.last()
    }
}

/// Bands depend on the last window of samples alone: whatever packets came, the window holds
/// the end of all their samples, and it is full exactly when there were enough of them.
pub proof fn law_bands_depend_on_the_last_window<T>(packets: Seq<Seq<T>>)
    ensures
        heard_after(packets) == tail(all_samples(packets)),
        heard_after(packets).len() == WINDOW <==> all_samples(packets).len() >= WINDOW,
    decreases packets.len(),
{
    if packets.len() > 0 {
        law_bands_depend_on_the_last_window(packets.drop_last());
        let before = all_samples(packets.drop_last());
        law_the_cut_of_packets_does_not_matter(Seq::empty(), before, packets.last());
        assert(Seq::<T>::empty() + before =~= before);
        assert(Seq::<T>::empty() + (before + packets.last()) =~= before + packets.last());
    }
}

/// Silence reads as nothing: where no bin has any magnitude no band has a peak, and what lies
/// below the floor is shown as nothing.
pub proof fn law_silence_reads_as_nothing(
    magnitudes: Seq<u32>,
    ranges: Seq<(usize, usize)>,
    band: int,
    level: u32,
)
    requires
        forall|i: int| 0 <= i < magnitudes.len() ==> #[trigger] magnitudes[i] == 0,
        0 <= band < ranges.len(),
        level >= NEGATIVE,
    ensures
        peaks_of(magnitudes, ranges)[band] == 0,
        shown_level(level) == 0,
{
    lemma_loudest_of_silence(
        magnitudes,
        ranges[band].0 as int,
        vstd::math::min(ranges[band].1 as int, magnitudes.len() as int),
    );
}

proof fn lemma_loudest_of_silence(levels: Seq<u32>, first: int, last: int)
    requires
        forall|i: int| 0 <= i < levels.len() ==> #[trigger] levels[i] == 0,
        0 <= first,
        last <= levels.len(),
    ensures
        loudest(levels, first, last) == 0,
    decreases last - first,
{
    if first < last {
        lemma_loudest_of_silence(levels, first, last - 1);
        assert(levels[last - 1] == 0);
    }
}

/// A louder sound never reads lower: neither as a peak nor as a level that is shown.
pub proof fn law_a_louder_sound_reads_no_lower(
    quiet: Seq<u32>,
    loud: Seq<u32>,
    first: int,
    last: int,
    low: u32,
    high: u32,
)
    requires
        0 <= first,
        last <= quiet.len(),
        quiet.len() == loud.len(),
        forall|i: int| 0 <= i < quiet.len() ==> #[trigger] quiet[i] <= #[trigger] loud[i],
        low <= high < NEGATIVE,
    ensures
        loudest(quiet, first, last) <= loudest(loud, first, last),
        shown_level(low) <= shown_level(high),
    decreases last - first,
{
    if first < last {
        law_a_louder_sound_reads_no_lower(quiet, loud, first, last - 1, low, high);
        assert(quiet[last - 1] <= loud[last - 1]);
    }
}

/// What the window holds ends with what came last, and holds as much of it as it can.
pub proof fn law_the_newest_sample_comes_last<T>(samples: Seq<T>, back: int)
    requires
        0 <= back < samples.len(),
        back < WINDOW,
    ensures
        tail(samples).len() == vstd::math::min(samples.len() as int, WINDOW as int),
        tail(samples)[tail(samples).len() - 1 - back] == samples[samples.len() - 1 - back],
{
}

/// The peak of a band is the level of one of its bins, and no bin of it is louder.
pub proof fn law_a_peak_is_the_loudest_bin(levels: Seq<u32>, first: int, last: int)
    requires
        0 <= first < last <= levels.len(),
    ensures
        exists|i: int| first <= i < last && #[trigger] levels[i] == loudest(levels, first, last),
        forall|i: int| first <= i < last ==> #[trigger] levels[i] <= loudest(levels, first, last),
    decreases last - first,
{
    if first < last - 1 {
        law_a_peak_is_the_loudest_bin(levels, first, last - 1);
        let before = loudest(levels, first, last - 1);
        let i = choose|i: int| first <= i < last - 1 && #[trigger] levels[i] == before;
        if levels[last - 1] <= before {
            assert(levels[i] == loudest(levels, first, last));
        } else {
            assert(levels[last - 1] == loudest(levels, first, last));
        }
    } else {
        assert(loudest(levels, first, first) == 0);
        assert(levels[first] == loudest(levels, first, last));
    }
}

/// Each band has a peak, and it is that of its own bins: of those from its first on, as far
/// as there are any before its end.
pub proof fn law_each_band_has_its_own_peak(
    magnitudes: Seq<u32>,
    ranges: Seq<(usize, usize)>,
    band: int,
    bin: int,
)
    requires
        0 <= band < ranges.len(),
    ensures
        peaks_of(magnitudes, ranges).len() == ranges.len(),
        ranges[band].0 <= bin < ranges[band].1 && bin < magnitudes.len() ==> magnitudes[bin]
            <= peaks_of(magnitudes, ranges)[band],
        ranges[band].0 >= ranges[band].1 || ranges[band].0 >= magnitudes.len() ==> peaks_of(
            magnitudes,
            ranges,
        )[band] == 0,
        ranges[band].0 < ranges[band].1 && ranges[band].0 < magnitudes.len() ==> exists|i: int|
            ranges[band].0 <= i < ranges[band].1 && i < magnitudes.len()
                && #[trigger] magnitudes[i] == peaks_of(magnitudes, ranges)[band],
{
    let first = ranges[band].0 as int;
    let last = vstd::math::min(ranges[band].1 as int, magnitudes.len() as int);
    if first < last {
        law_a_peak_is_the_loudest_bin(magnitudes, first, last);
    }
}

/// A level is shown as it is, but for what is below nothing or above full.
pub proof fn law_a_level_is_shown_as_it_is(level: u32)
    ensures
        level <= FULL ==> shown_level(level) == level,
        FULL < level < NEGATIVE ==> shown_level(level) == FULL,
        level >= NEGATIVE ==> shown_level(level) == 0,
        level <= 127 * 0x80_0000 ==> shown_level(level) == level,
        shown_level(level) <= 127 * 0x80_0000,
        level >= 0x8000_0000 ==> shown_level(level) == 0,
        127 * 0x80_0000 < level < 0x8000_0000 ==> shown_level(level) == 127 * 0x80_0000,
{
}

/// Beats are at least 220 milliseconds apart, and the first may come at any time; audio
/// counts as live for 400 milliseconds after it came through.
pub proof fn law_beats_and_silence_go_by_the_clock(last: u128, now: u128)
    ensures
        beat_due(None, now),
        beat_due(Some(last), now) <==> now >= last + 220 * 1_000_000,
        !live_at(None, now),
        live_at(Some(last), now) <==> now < last + 400 * 1_000_000,
{
}

/// Bit `place` of a number.
pub open spec fn bit_of(value: nat, place: nat) -> nat {
    value / pow2(place) % 2
}

/// In a reversed number every bit stands as far from one end as it stood from the other.
pub proof fn law_each_bit_changes_ends(value: nat, bits: nat, place: nat)
    requires
        place < bits,
    ensures
        bit_of(reversed(value, bits), place) == bit_of(value, (bits - 1 - place) as nat),
        reversed(value, bits) < pow2(bits),
    decreases bits,
{
    lemma_reversed_bound(value, bits);
    let less = (bits - 1) as nat;
    let half = pow2(less);
    let rest = reversed(value / 2, less);
    let low = value % 2;
    lemma_reversed_bound(value / 2, less);
    vstd::arithmetic::power2::lemma_pow2_pos(less);
    if place == less {
        assert((rest + low * half) / half == low) by (nonlinear_arith)
            requires
                0 <= rest < half,
                0 <= low,
        ;
        vstd::arithmetic::power2::lemma2_to64();
        assert(pow2(0) == 1);
        assert(value / 1 == value);
    } else {
        let unit = pow2(place);
        let rest_of = (less - place) as nat;
        let lift = pow2(rest_of);
        vstd::arithmetic::power2::lemma_pow2_pos(place);
        vstd::arithmetic::power2::lemma_pow2_adds(place, rest_of);
        vstd::arithmetic::power2::lemma_pow2_unfold(rest_of);
        let other = pow2((rest_of - 1) as nat);
        vstd::arithmetic::power2::lemma_pow2_pos((rest_of - 1) as nat);
        assert(half == unit * lift);
        assert(lift == 2 * other);
        assert(low * half == unit * (low * lift)) by (nonlinear_arith)
            requires
                half == unit * lift,
        ;
        let shift = low * lift;
        assert(shift == 2 * (low * other)) by (nonlinear_arith)
            requires
                shift == low * lift,
                lift == 2 * other,
        ;
        assert((rest + unit * shift) / unit == rest / unit + shift) by {
            vstd::arithmetic::div_mod::lemma_hoist_over_denominator(
                rest as int,
                shift as int,
                unit,
            );
        }
        assert((rest / unit + shift) % 2 == (rest / unit) % 2);
        law_each_bit_changes_ends(value / 2, less, place);
        assert(((value / 2) / other) == value / lift) by {
            vstd::arithmetic::div_mod::lemma_div_denominator(
                value as int,
                2,
                other as int,
            );
        }
    }
}

} // verus!
