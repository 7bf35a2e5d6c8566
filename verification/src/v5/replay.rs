//! The window of packet numbers that guards against replays.
use vstd::prelude::*;

verus! {

pub const REPLAY_WINDOW_BITS: usize = 1024;

/// The highest number committed, and those committed among the last
/// [`REPLAY_WINDOW_BITS`].
#[verifier::ext_equal]
pub struct ReplayView {
    pub highest: Option<u64>,
    pub seen: Set<u64>,
}

impl ReplayView {
    pub open spec fn empty() -> ReplayView {
        ReplayView { highest: None, seen: Set::empty() }
    }

    pub open spec fn accepts(self, number: u64) -> bool {
        match self.highest {
            None => true,
            Some(highest) => number > highest || (highest - number < REPLAY_WINDOW_BITS
                && !self.seen.contains(number)),
        }
    }

    pub open spec fn committed(self, number: u64) -> ReplayView {
        let highest = match self.highest {
            None => number,
            Some(highest) => if number > highest {
                number
            } else {
                highest
            },
        };
        ReplayView {
            highest: Some(highest),
            seen: Set::new(
                |n: u64|
                    n <= highest && highest - n < REPLAY_WINDOW_BITS && (n == number
                        || self.seen.contains(n)),
            ),
        }
    }

    /// The window after the numbers of `history`, committed in their order.
    pub open spec fn after(history: Seq<u64>) -> ReplayView
        decreases history.len(),
    {
        if history.len() == 0 {
            ReplayView::empty()
        } else {
            ReplayView::after(history.drop_last()).committed(history.last())
        }
    }
}

/// Whether bit `k` of a word is set.
spec fn bit(word: u64, k: int) -> bool {
    word & (1u64 << (k as u64)) != 0
}

/// Whether the number `distance` below the highest is marked.
spec fn marked(words: Seq<u64>, distance: int) -> bool {
    bit(words[distance / 64], distance % 64)
}

#[derive(Clone, Copy)]
pub struct ReplayWindow {
    highest: Option<u64>,
    words: [u64; 16],
}

impl View for ReplayWindow {
    type V = ReplayView;

    closed spec fn view(&self) -> ReplayView {
        ReplayView {
            highest: self.highest,
            seen: match self.highest {
                None => Set::empty(),
                Some(highest) => Set::new(
                    |n: u64|
                        n <= highest && highest - n < REPLAY_WINDOW_BITS && marked(
                            self.words@,
                            highest - n,
                        ),
                ),
            },
        }
    }
}

impl ReplayWindow {
    /// Before the first commit nothing is marked.
    #[verifier::type_invariant]
    spec fn type_inv(self) -> bool {
        self.highest is None ==> forall|i: int| 0 <= i < 16 ==> self.words@[i] == 0
    }

    pub fn would_accept(&self, packet_number: u64) -> (accept: bool)
        ensures
            accept == self@.accepts(packet_number),
    {
        let Some(highest) = self.highest else {
            return true;
        };
        if packet_number > highest {
            return true;
        }
        let distance: u64 = highest - packet_number;
        if distance >= REPLAY_WINDOW_BITS as u64 {
            return false;
        }
        self.words[(distance / 64) as usize] & (1u64 << (distance % 64)) == 0
    }

    pub fn commit(&mut self, packet_number: u64)
        ensures
            final(self)@ == old(self)@.committed(packet_number),
    {
        proof {
            use_type_invariant(&*self);
        }
        let mut words: [u64; 16] = self.words;
        let ghost before = words@;
        match self.highest {
            None => {
                words[0] = 1;
                proof {
                    assert forall|d: int| 0 <= d < REPLAY_WINDOW_BITS implies #[trigger] marked(
                        words@,
                        d,
                    ) == (d == 0) by {
                        let k = (d % 64) as u64;
                        assert(0u64 & (1u64 << k) == 0) by (bit_vector);
                        assert(k < 64 ==> (1u64 & (1u64 << k) != 0) == (k == 0)) by (bit_vector);
                    }
                }
                *self = ReplayWindow { highest: Some(packet_number), words };
                assert(self@ =~= old(self)@.committed(packet_number)) by {
                    assert forall|n: u64| #[trigger]
                        self@.seen.contains(n) == old(self)@.committed(packet_number).seen.contains(
                            n,
                        ) by {
                        if n <= packet_number && packet_number - n < REPLAY_WINDOW_BITS {
                            assert(marked(words@, packet_number - n) == (packet_number - n == 0));
                        }
                    }
                }
            },
            Some(highest) => if packet_number > highest {
                let shift: u64 = packet_number - highest;
                shift_words(&mut words, shift);
                let ghost shifted = words@;
                words[0] = words[0] | 1;
                proof {
                    assert forall|d: int| 0 <= d < REPLAY_WINDOW_BITS implies #[trigger] marked(
                        words@,
                        d,
                    ) == (d == 0 || marked(shifted, d)) by {
                        let k = (d % 64) as u64;
                        let w = shifted[0];
                        assert(k < 64 ==> ((w | 1) & (1u64 << k) != 0) == (k == 0 || w & (1u64 << k)
                            != 0)) by (bit_vector);
                    }
                }
                *self = ReplayWindow { highest: Some(packet_number), words };
                assert(self@ =~= old(self)@.committed(packet_number)) by {
                    assert forall|n: u64| #[trigger]
                        self@.seen.contains(n) == old(self)@.committed(packet_number).seen.contains(
                            n,
                        ) by {
                        if n <= packet_number && packet_number - n < REPLAY_WINDOW_BITS {
                            let d = packet_number - n;
                            assert(marked(words@, d) == (d == 0 || marked(shifted, d)));
                            assert(marked(shifted, d) == (d >= shift && marked(before, d - shift)));
                        }
                    }
                }
            } else {
                let distance: u64 = highest - packet_number;
                if distance < REPLAY_WINDOW_BITS as u64 {
                    let index: usize = (distance / 64) as usize;
                    let one: u64 = 1u64 << (distance % 64);
                    words[index] = words[index] | one;
                    proof {
                        assert forall|d: int| 0 <= d < REPLAY_WINDOW_BITS implies #[trigger] marked(
                            words@,
                            d,
                        ) == (d == distance || marked(before, d)) by {
                            let k = (d % 64) as u64;
                            let j = (distance % 64) as u64;
                            let w = before[index as int];
                            assert(k < 64 && j < 64 ==> ((w | (1u64 << j)) & (1u64 << k) != 0) == (k
                                == j || w & (1u64 << k) != 0)) by (bit_vector);
                        }
                    }
                    *self = ReplayWindow { highest: Some(highest), words };
                    assert(self@ =~= old(self)@.committed(packet_number)) by {
                        assert forall|n: u64| #[trigger]
                            self@.seen.contains(n) == old(self)@.committed(
                                packet_number,
                            ).seen.contains(n) by {
                            if n <= highest && highest - n < REPLAY_WINDOW_BITS {
                                let d = highest - n;
                                assert(marked(words@, d) == (d == distance || marked(before, d)));
                            }
                        }
                    }
                } else {
                    assert(self@ =~= old(self)@.committed(packet_number));
                }
            },
        }
    }
}

impl Default for ReplayWindow {
    fn default() -> (window: ReplayWindow)
        ensures
            window@ == ReplayView::empty(),
    {
        ReplayWindow { highest: None, words: [0u64; 16] }
    }
}

/// Moves every mark `bits` further from the highest number.
fn shift_words(words: &mut [u64; 16], bits: u64)
    ensures
        forall|d: int|
            0 <= d < REPLAY_WINDOW_BITS ==> #[trigger] marked(final(words)@, d) == (d >= bits
                && marked(old(words)@, d - bits)),
{
    let ghost before = words@;
    if bits >= REPLAY_WINDOW_BITS as u64 {
        *words = [0u64; 16];
        proof {
            assert forall|d: int| 0 <= d < REPLAY_WINDOW_BITS implies !#[trigger] marked(
                words@,
                d,
            ) by {
                let k = (d % 64) as u64;
                assert(0u64 & (1u64 << k) == 0) by (bit_vector);
            }
        }
        return ;
    }
    let word_shift: usize = (bits / 64) as usize;
    let bit_shift: u64 = bits % 64;
    let mut left: usize = 16;
    while left > 0
        invariant
            left <= 16,
            bits < REPLAY_WINDOW_BITS,
            word_shift == bits / 64,
            bit_shift == bits % 64,
            before == old(words)@,
            words@.len() == 16,
            forall|i: int| 0 <= i < left ==> words@[i] == before[i],
            forall|d: int|
                64 * left <= d < REPLAY_WINDOW_BITS ==> #[trigger] marked(words@, d) == (d >= bits
                    && marked(before, d - bits)),
        decreases left,
    {
        let destination: usize = left - 1;
        let mut value: u64 = 0;
        if destination >= word_shift {
            value = words[destination - word_shift] << bit_shift;
            if bit_shift != 0 && destination > word_shift {
                value = value | (words[destination - word_shift - 1] >> (64 - bit_shift));
            }
        }
        let ghost earlier = words@;
        words[destination] = value;
        left = destination;
        proof {
            assert forall|d: int| 64 * left <= d < REPLAY_WINDOW_BITS implies #[trigger] marked(
                words@,
                d,
            ) == (d >= bits && marked(before, d - bits)) by {
                if d >= 64 * (left + 1) {
                    assert(marked(earlier, d) == (d >= bits && marked(before, d - bits)));
                    assert(words@[d / 64] == earlier[d / 64]);
                } else {
                    let k = (d % 64) as u64;
                    assert(d == 64 * destination + k);
                    shifted_bit(before, destination as int, word_shift as int, bit_shift, k, value);
                    assert(bits == 64 * word_shift + bit_shift);
                }
            }
        }
    }
}

/// Where a bit of a shifted word comes from.
proof fn shifted_bit(
    before: Seq<u64>,
    destination: int,
    word_shift: int,
    bit_shift: u64,
    k: u64,
    value: u64,
)
    requires
        before.len() == 16,
        0 <= destination < 16,
        0 <= word_shift,
        bit_shift < 64,
        k < 64,
        value == if destination < word_shift {
            0
        } else if bit_shift != 0 && destination > word_shift {
            (before[destination - word_shift] << bit_shift) | (before[destination - word_shift - 1]
                >> ((64 - bit_shift) as u64))
        } else {
            before[destination - word_shift] << bit_shift
        },
    ensures
        ({
            let d = 64 * destination + k;
            let bits = 64 * word_shift + bit_shift;
            bit(value, k as int) == (d >= bits && marked(before, d - bits))
        }),
{
    let d = 64 * destination + k;
    let bits = 64 * word_shift + bit_shift;
    if destination < word_shift {
        assert(0u64 & (1u64 << k) == 0) by (bit_vector);
    } else {
        let a = before[destination - word_shift];
        if k >= bit_shift {
            let j = (k - bit_shift) as u64;
            assert((d - bits) / 64 == destination - word_shift && (d - bits) % 64 == j) by {
                assert(d - bits == 64 * (destination - word_shift) + j);
            }
            if bit_shift != 0 && destination > word_shift {
                let b = before[destination - word_shift - 1];
                let r = (64 - bit_shift) as u64;
                assert(bit_shift < 64 && bit_shift != 0 && k < 64 && k >= bit_shift && r == 64
                    - bit_shift && j == k - bit_shift ==> (((a << bit_shift) | (b >> r)) & (1u64
                    << k) != 0) == (a & (1u64 << j) != 0)) by (bit_vector);
            } else {
                assert(bit_shift < 64 && k < 64 && k >= bit_shift && j == k - bit_shift ==> ((a
                    << bit_shift) & (1u64 << k) != 0) == (a & (1u64 << j) != 0)) by (bit_vector);
            }
        } else if destination > word_shift {
            let b = before[destination - word_shift - 1];
            let r = (64 - bit_shift) as u64;
            let j = (k + r) as u64;
            assert((d - bits) / 64 == destination - word_shift - 1 && (d - bits) % 64 == j) by {
                assert(d - bits == 64 * (destination - word_shift - 1) + j);
            }
            assert(bit_shift < 64 && bit_shift != 0 && k < bit_shift && r == 64 - bit_shift && j
                == k + r ==> (((a << bit_shift) | (b >> r)) & (1u64 << k) != 0) == (b & (1u64 << j)
                != 0)) by (bit_vector);
        } else {
            assert(bit_shift < 64 && k < bit_shift ==> (a << bit_shift) & (1u64 << k) == 0)
                by (bit_vector);
        }
    }
}

/// A number that was committed is not accepted again.
pub proof fn committed_number_is_refused(window: ReplayView, number: u64)
    ensures
        !window.committed(number).accepts(number),
{
}

/// A number that is not accepted stays so, whatever is committed.
pub proof fn refusal_is_permanent(window: ReplayView, number: u64, other: u64)
    requires
        !window.accepts(number),
    ensures
        !window.committed(other).accepts(number),
{
}

/// A window accepts exactly the numbers that were never committed and lie less than
/// [`REPLAY_WINDOW_BITS`] below the highest one, in whatever order they were committed.
pub proof fn window_accepts_exactly_the_fresh(history: Seq<u64>, number: u64)
    ensures
        ReplayView::after(history).accepts(number) == (!history.contains(number) && forall|i: int|
            0 <= i < history.len() ==> #[trigger] history[i] - number < REPLAY_WINDOW_BITS),
{
    window_holds_history(history);
    let window = ReplayView::after(history);
    if history.len() > 0 {
        let highest = window.highest->0;
        let at = choose|i: int| 0 <= i < history.len() && history[i] == highest;
        assert(history[at] == highest);
        if history.contains(number) {
            let i = choose|i: int| 0 <= i < history.len() && history[i] == number;
            assert(history[i] == number);
        }
    }
}

proof fn window_holds_history(history: Seq<u64>)
    ensures
        ({
            let window = ReplayView::after(history);
            match window.highest {
                None => history.len() == 0 && window.seen == Set::<u64>::empty(),
                Some(highest) => {
                    &&& exists|i: int| 0 <= i < history.len() && history[i] == highest
                    &&& forall|i: int| 0 <= i < history.len() ==> #[trigger] history[i] <= highest
                    &&& forall|n: u64| #[trigger]
                        window.seen.contains(n) == (history.contains(n) && highest - n
                            < REPLAY_WINDOW_BITS)
                },
            }
        }),
    decreases history.len(),
{
    if history.len() > 0 {
        let shorter = history.drop_last();
        let last = history.last();
        window_holds_history(shorter);
        let earlier = ReplayView::after(shorter);
        let window = earlier.committed(last);
        let highest = window.highest->0;
        assert(ReplayView::after(history) == window);
        assert(history[history.len() - 1] == last);
        if earlier.highest is Some && earlier.highest->0 == highest {
            let i = choose|i: int| 0 <= i < shorter.len() && shorter[i] == highest;
            assert(history[i] == highest);
        }
        assert forall|i: int| 0 <= i < history.len() implies #[trigger] history[i] <= highest by {
            if i < shorter.len() {
                assert(shorter[i] == history[i]);
            }
        }
        assert forall|n: u64| #[trigger]
            window.seen.contains(n) == (history.contains(n) && highest - n
                < REPLAY_WINDOW_BITS) by {
            if shorter.contains(n) {
                let i = choose|i: int| 0 <= i < shorter.len() && shorter[i] == n;
                assert(history[i] == n);
            }
            if history.contains(n) {
                let i = choose|i: int| 0 <= i < history.len() && history[i] == n;
                if i < shorter.len() {
                    assert(shorter[i] == n);
                }
            }
        }
    }
}

} // verus!
