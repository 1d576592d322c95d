use crate::game::{is_door, Game};
use vstd::prelude::*;

verus! {

/// How many outcome labels each prize door has: nine "lost a-b", the four
/// switch/stay summaries, and nine "won a-b", in the order of their text.
pub const LABELS: usize = 22;

/// How many counters the aggregator holds: one per prize door and label.
pub const SLOTS: usize = 66;

/// The label of a round's result: "lost a-b" (0 to 8) or "won a-b" (13 to
/// 21), with `a` the first pick and `b` the final one.
pub open spec fn result_label(good: i8, first: i8, second: i8) -> int {
    (if second == good { 13int } else { 0int }) + 3 * (first - 1) + (second - 1)
}

/// The summary label of a round: "stayed lost" (9), "stayed won" (10),
/// "switch lost" (11) or "switch won" (12).
pub open spec fn summary_label(good: i8, first: i8, second: i8) -> int {
    if first == second {
        if second == good { 10 } else { 9 }
    } else {
        if second == good { 12 } else { 11 }
    }
}

/// Where the counter of a prize door's label stands.
pub open spec fn slot(door: int, label: int) -> int {
    (door - 1) * LABELS + label
}

/// The text of a door number.
pub open spec fn digit_text(d: int) -> Seq<char> {
    if d == 1 { "1"@ } else if d == 2 { "2"@ } else { "3"@ }
}

/// The text of a label.
pub open spec fn label_text(label: int) -> Seq<char> {
    if label < 9 {
        "lost "@ + digit_text(label / 3 + 1) + "-"@ + digit_text(label % 3 + 1)
    } else if label == 9 {
        "stayed lost"@
    } else if label == 10 {
        "stayed won"@
    } else if label == 11 {
        "switch lost"@
    } else if label == 12 {
        "switch won"@
    } else {
        "won "@ + digit_text((label - 13) / 3 + 1) + "-"@ + digit_text((label - 13) % 3 + 1)
    }
}

/// The whole percentage nearest to `100 * count / total`, a tie going to
/// the even one.
pub open spec fn percent_of(count: int, total: int) -> int {
    let q = (100 * count) / total;
    let r = (100 * count) % total;
    if 2 * r > total || (2 * r == total && q % 2 == 1) {
        q + 1
    } else {
        q
    }
}

fn digit(d: i8) -> (r: &'static str)
    requires
        is_door(d),
    ensures
        r@ == digit_text(d as int),
{
    if d == 1 {
        "1"
    } else if d == 2 {
        "2"
    } else {
        "3"
    }
}

/// The text of a label.
pub fn label_name(label: usize) -> (r: String)
    requires
        label < LABELS,
    ensures
        r@ == label_text(label as int),
{
    if label < 9 {
        let mut s = String::from_str("lost ");
        s.append(digit((label / 3 + 1) as i8));
        s.append("-");
        s.append(digit((label % 3 + 1) as i8));
        s
    } else if label == 9 {
        String::from_str("stayed lost")
    } else if label == 10 {
        String::from_str("stayed won")
    } else if label == 11 {
        String::from_str("switch lost")
    } else if label == 12 {
        String::from_str("switch won")
    } else {
        let mut s = String::from_str("won ");
        s.append(digit(((label - 13) / 3 + 1) as i8));
        s.append("-");
        s.append(digit(((label - 13) % 3 + 1) as i8));
        s
    }
}

/// The two labels a finished round counts under: its result and its
/// switch/stay summary.
pub fn classify(good: i8, first: i8, second: i8) -> (r: (usize, usize))
    requires
        is_door(good),
        is_door(first),
        is_door(second),
    ensures
        r.0 == result_label(good, first, second),
        r.1 == summary_label(good, first, second),
{
    let base: usize = if second == good { 13 } else { 0 };
    let result = base + 3 * ((first - 1) as usize) + ((second - 1) as usize);
    let summary: usize = if first == second {
        if second == good { 10 } else { 9 }
    } else {
        if second == good { 12 } else { 11 }
    };
    (result, summary)
}

/// The texts of the two labels a finished round counts under.
pub fn labels_of(good: i8, first: i8, second: i8) -> (r: (String, String))
    requires
        is_door(good),
        is_door(first),
        is_door(second),
    ensures
        r.0@ == label_text(result_label(good, first, second)),
        r.1@ == label_text(summary_label(good, first, second)),
{
    let (result, summary) = classify(good, first, second);
    (label_name(result), label_name(summary))
}

/// The whole percentage nearest to `100 * count / total`, a tie going to
/// the even one.
pub fn percent(count: u64, total: u128) -> (r: u64)
    requires
        0 < total,
        count <= total,
    ensures
        r == percent_of(count as int, total as int),
        r <= 100,
{
    let scaled: u128 = 100 * (count as u128);
    let q: u128 = scaled / total;
    let rem: u128 = scaled % total;
    proof {
        assert(q <= 100) by (nonlinear_arith)
            requires
                q == scaled / total,
                scaled == 100 * count,
                count <= total,
                0 < total,
        ;
        assert(rem < total);
    }
    if rem > total - rem || (rem == total - rem && q % 2 == 1) {
        proof {
            assert(q < 100) by (nonlinear_arith)
                requires
                    q == scaled / total,
                    rem == scaled % total,
                    scaled == 100 * count,
                    count <= total,
                    0 < total,
                    rem > 0,
            ;
        }
        (q + 1) as u64
    } else {
        q as u64
    }
}

/// `a` comes before `b` in the order of their characters: after a common
/// beginning, either `a` ends first or its next character is the lower.
pub open spec fn text_before(a: Seq<char>, b: Seq<char>) -> bool {
    exists|k: int|
        0 <= k <= a.len() && k <= b.len() && #[trigger] a.subrange(0, k) == b.subrange(0, k) && (
        (k == a.len() && k < b.len()) || (k < a.len() && k < b.len() && (a[k] as u32) < (
        b[k] as u32)))
}

proof fn lemma_before_at(a: Seq<char>, b: Seq<char>, k: int)
    requires
        0 <= k < a.len(),
        k < b.len(),
        forall|m: int| 0 <= m < k ==> a[m] == b[m],
        (a[k] as u32) < (b[k] as u32),
    ensures
        text_before(a, b),
{
    assert(a.subrange(0, k) =~= b.subrange(0, k));
}

proof fn lemma_pair_text(word: Seq<char>, label: int, first: int, second: int)
    requires
        word == "lost "@ || word == "won "@,
        label == (if word == "lost "@ { 0int } else { 13int }) + 3 * (first - 1) + (second - 1),
        1 <= first <= 3,
        1 <= second <= 3,
    ensures
        label_text(label).len() == word.len() + 3,
        forall|m: int| 0 <= m < word.len() ==> label_text(label)[m] == word[m],
        label_text(label)[word.len() as int] == digit_text(first)[0],
        label_text(label)[word.len() + 1int] == '-',
        label_text(label)[word.len() + 2int] == digit_text(second)[0],
{
    reveal_strlit("lost ");
    reveal_strlit("won ");
    reveal_strlit("-");
    reveal_strlit("1");
    reveal_strlit("2");
    reveal_strlit("3");
}

/// The labels are numbered in the order of their text, so a table that
/// lists them by number lists them sorted by text.
pub proof fn labels_in_text_order(i: int, j: int)
    requires
        0 <= i < j < LABELS,
    ensures
        text_before(label_text(i), label_text(j)),
{
    reveal_strlit("lost ");
    reveal_strlit("won ");
    reveal_strlit("-");
    reveal_strlit("1");
    reveal_strlit("2");
    reveal_strlit("3");
    reveal_strlit("stayed lost");
    reveal_strlit("stayed won");
    reveal_strlit("switch lost");
    reveal_strlit("switch won");
    let a = label_text(i);
    let b = label_text(j);
    if i < 9 {
        lemma_pair_text("lost "@, i, i / 3 + 1, i % 3 + 1);
        if j < 9 {
            lemma_pair_text("lost "@, j, j / 3 + 1, j % 3 + 1);
            if i / 3 < j / 3 {
                lemma_before_at(a, b, 5);
            } else {
                lemma_before_at(a, b, 7);
            }
        } else if j < 13 {
            lemma_before_at(a, b, 0);
        } else {
            lemma_pair_text("won "@, j, (j - 13) / 3 + 1, (j - 13) % 3 + 1);
            lemma_before_at(a, b, 0);
        }
    } else if i < 13 {
        if j < 13 {
            if i == 9 && j == 10 {
                lemma_before_at(a, b, 7);
            } else if i == 11 && j == 12 {
                lemma_before_at(a, b, 7);
            } else {
                lemma_before_at(a, b, 1);
            }
        } else {
            lemma_pair_text("won "@, j, (j - 13) / 3 + 1, (j - 13) % 3 + 1);
            lemma_before_at(a, b, 0);
        }
    } else {
        lemma_pair_text("won "@, i, (i - 13) / 3 + 1, (i - 13) % 3 + 1);
        lemma_pair_text("won "@, j, (j - 13) / 3 + 1, (j - 13) % 3 + 1);
        if (i - 13) / 3 < (j - 13) / 3 {
            lemma_before_at(a, b, 4);
        } else {
            lemma_before_at(a, b, 6);
        }
    }
}

/// A round with a prize door and both picks set, which is all counting needs.
pub open spec fn is_counted(g: Game) -> bool {
    is_door(g.good_door) && is_door(g.first_choice) && is_door(g.second_choice)
}

/// Whether a finished round counts under the counter at `s`.
pub open spec fn touches(g: Game, s: int) -> bool {
    s == slot(g.good_door as int, result_label(g.good_door, g.first_choice, g.second_choice))
        || s == slot(g.good_door as int, summary_label(g.good_door, g.first_choice, g.second_choice))
}

/// How many of `rounds` count under the counter at `s`.
pub open spec fn count_in(rounds: Seq<Game>, s: int) -> int
    decreases rounds.len(),
{
    if rounds.len() == 0 {
        0
    } else {
        count_in(rounds.drop_last(), s) + if touches(rounds.last(), s) { 1int } else { 0int }
    }
}

/// The sum of the first `n` counters of a prize door.
pub open spec fn sum_labels(t: Seq<u64>, door: int, n: int) -> int
    decreases n,
{
    if n <= 0 {
        0
    } else {
        sum_labels(t, door, n - 1) + t[slot(door, n - 1)]
    }
}

/// Everything counted for a prize door.
pub open spec fn door_total(t: Seq<u64>, door: int) -> int {
    sum_labels(t, door, LABELS as int)
}

/// The labels below `n` that a prize door has counted at least once, in
/// increasing order.
pub open spec fn shown_labels(t: Seq<u64>, door: int, n: int) -> Seq<int>
    decreases n,
{
    if n <= 0 {
        Seq::empty()
    } else if t[slot(door, n - 1)] > 0 {
        shown_labels(t, door, n - 1).push(n - 1)
    } else {
        shown_labels(t, door, n - 1)
    }
}

proof fn lemma_count_in_remove(rounds: Seq<Game>, i: int, s: int)
    requires
        0 <= i < rounds.len(),
    ensures
        count_in(rounds, s) == count_in(rounds.remove(i), s) + if touches(rounds[i], s) {
            1int
        } else {
            0int
        },
    decreases rounds.len(),
{
    if i == rounds.len() - 1 {
        assert(rounds.remove(i) =~= rounds.drop_last());
    } else {
        let shorter = rounds.drop_last();
        lemma_count_in_remove(shorter, i, s);
        assert(rounds.remove(i).drop_last() =~= shorter.remove(i));
        assert(rounds.remove(i).last() == rounds.last());
    }
}

/// Counting depends on which rounds were played, not on their order: two
/// sequences of finished rounds that hold the same rounds, as many times
/// each, reach every counter equally often. So workers that record their
/// rounds concurrently, in whatever interleaving, end at the counts of a
/// single worker that records them one after another.
pub proof fn tally_ignores_order(a: Seq<Game>, b: Seq<Game>)
    requires
        a.to_multiset() =~= b.to_multiset(),
    ensures
        forall|s: int| count_in(a, s) == #[trigger] count_in(b, s),
    decreases a.len(),
{
    broadcast use vstd::seq_lib::group_to_multiset_ensures;

    if a.len() == 0 {
        assert(a.to_multiset().len() == 0);
        assert(b.to_multiset().len() == b.len());
    } else {
        let x = a.last();
        let rest = a.drop_last();
        assert(a =~= rest.push(x));
        assert(a.to_multiset().count(x) > 0);
        assert(b.contains(x));
        let i = choose|i: int| 0 <= i < b.len() && b[i] == x;
        let others = b.remove(i);
        assert(others.to_multiset() =~= rest.to_multiset());
        tally_ignores_order(rest, others);
        assert forall|s: int| count_in(a, s) == #[trigger] count_in(b, s) by {
            lemma_count_in_remove(b, i, s);
        }
    }
}

proof fn lemma_shown_increasing(t: Seq<u64>, door: int, n: int)
    requires
        0 <= n,
    ensures
        forall|k: int|
            0 <= k < shown_labels(t, door, n).len() ==> 0 <= #[trigger] shown_labels(t, door, n)[k]
                < n,
        forall|k1: int, k2: int|
            0 <= k1 < k2 < shown_labels(t, door, n).len() ==> #[trigger] shown_labels(t, door, n)[k1]
                < #[trigger] shown_labels(t, door, n)[k2],
    decreases n,
{
    if n > 0 {
        lemma_shown_increasing(t, door, n - 1);
        let prev = shown_labels(t, door, n - 1);
        let cur = shown_labels(t, door, n);
        if t[slot(door, n - 1)] > 0 {
            assert(cur == prev.push(n - 1));
            assert forall|k: int| 0 <= k < prev.len() implies cur[k] == prev[k] && prev[k] < n
                - 1 by {}
        } else {
            assert(cur == prev);
        }
    }
}

/// One line of a prize door's table.
pub struct Row {
    pub label: String,
    pub count: u64,
    pub percent: u64,
}

/// The running counts, per prize door and outcome label.
pub struct StatsAggregator {
    counts: Vec<u64>,
}

impl View for StatsAggregator {
    type V = Seq<u64>;

    /// The counter of door `d` and label `l` stands at `slot(d, l)`.
    closed spec fn view(&self) -> Seq<u64> {
        self.counts@
    }
}

proof fn lemma_sum_labels_bounds(t: Seq<u64>, door: int, n: int)
    requires
        1 <= door <= 3,
        0 <= n <= LABELS,
        t.len() == SLOTS,
    ensures
        0 <= sum_labels(t, door, n) <= n * 0xffff_ffff_ffff_ffff,
        forall|l: int| 0 <= l < n ==> t[slot(door, l)] <= sum_labels(t, door, n),
    decreases n,
{
    if n > 0 {
        lemma_sum_labels_bounds(t, door, n - 1);
    }
}

impl StatsAggregator {
    /// The aggregator holds one counter per prize door and label.
    pub open spec fn wf(&self) -> bool {
        self@.len() == SLOTS
    }

    /// An aggregator with every count at zero.
    pub fn new() -> (r: StatsAggregator)
        ensures
            r.wf(),
            forall|s: int| 0 <= s < SLOTS ==> r@[s] == 0,
    {
        let mut counts: Vec<u64> = Vec::new();
        let mut i: usize = 0;
        while i < SLOTS
            invariant
                i <= SLOTS,
                counts@.len() == i,
                forall|s: int| 0 <= s < i ==> counts@[s] == 0,
            decreases SLOTS - i,
        {
            counts.push(0);
            i = i + 1;
        }
        StatsAggregator { counts }
    }

    /// A copy of every count, taken at once.
    pub fn snapshot(&self) -> (r: StatsAggregator)
        ensures
            r@ == self@,
    {
        let counts = self.counts.clone();
        proof {
            assert(counts@ =~= self.counts@);
        }
        StatsAggregator { counts }
    }

    /// The count of a prize door's label.
    pub fn count(&self, door: i8, label: usize) -> (r: u64)
        requires
            self.wf(),
            is_door(door),
            label < LABELS,
        ensures
            r == self@[slot(door as int, label as int)],
    {
        self.counts[(door - 1) as usize * LABELS + label]
    }

    /// Counts a finished round under its result label and its summary label,
    /// in the bucket of its prize door. Returns false, and counts nothing,
    /// when one of the two counters is already at its largest value.
    pub fn record(&mut self, good: i8, first: i8, second: i8) -> (r: bool)
        requires
            old(self).wf(),
            is_door(good),
            is_door(first),
            is_door(second),
        ensures
            final(self).wf(),
            ({
                let a = slot(good as int, result_label(good, first, second));
                let b = slot(good as int, summary_label(good, first, second));
                &&& r == (old(self)@[a] < u64::MAX && old(self)@[b] < u64::MAX)
                &&& r ==> final(self)@ == old(self)@.update(a, (old(self)@[a] + 1) as u64).update(
                    b,
                    (old(self)@[b] + 1) as u64,
                )
                &&& !r ==> final(self)@ == old(self)@
            }),
    {
        let (result, summary) = classify(good, first, second);
        let base: usize = (good - 1) as usize * LABELS;
        let a = base + result;
        let b = base + summary;
        if self.counts[a] < u64::MAX && self.counts[b] < u64::MAX {
            let ca = self.counts[a];
            self.counts.set(a, ca + 1);
            let cb = self.counts[b];
            self.counts.set(b, cb + 1);
            true
        } else {
            false
        }
    }

    /// Counts finished rounds in order, stopping before the first one that
    /// no longer fits; returns how many were counted.
    pub fn record_all(&mut self, rounds: &Vec<Game>) -> (n: usize)
        requires
            old(self).wf(),
            forall|k: int| 0 <= k < rounds@.len() ==> is_counted(#[trigger] rounds@[k]),
        ensures
            final(self).wf(),
            n <= rounds@.len(),
            forall|s: int|
                0 <= s < SLOTS ==> #[trigger] final(self)@[s] == old(self)@[s] + count_in(
                    rounds@.take(n as int),
                    s,
                ),
            n < rounds@.len() ==> {
                let g = rounds@[n as int];
                ||| final(self)@[slot(g.good_door as int, result_label(g.good_door, g.first_choice, g.second_choice))] == u64::MAX
                ||| final(self)@[slot(g.good_door as int, summary_label(g.good_door, g.first_choice, g.second_choice))] == u64::MAX
            },
    {
        let ghost start = self@;
        let mut i: usize = 0;
        while i < rounds.len()
            invariant
                self.wf(),
                start == old(self)@,
                i <= rounds@.len(),
                forall|k: int| 0 <= k < rounds@.len() ==> is_counted(#[trigger] rounds@[k]),
                forall|s: int|
                    0 <= s < SLOTS ==> #[trigger] self@[s] == start[s] + count_in(
                        rounds@.take(i as int),
                        s,
                    ),
            decreases rounds@.len() - i,
        {
            let g = rounds[i];
            if !self.record(g.good_door, g.first_choice, g.second_choice) {
                return i;
            }
            proof {
                let next = rounds@.take(i + 1);
                assert(next.drop_last() =~= rounds@.take(i as int));
                assert(next.last() == g);
                assert forall|s: int| 0 <= s < SLOTS implies #[trigger] self@[s] == start[s]
                    + count_in(next, s) by {
                    assert(count_in(next, s) == count_in(rounds@.take(i as int), s) + if touches(
                        g,
                        s,
                    ) {
                        1int
                    } else {
                        0int
                    });
                }
            }
            i = i + 1;
        }
        proof {
            assert(rounds@.take(i as int) =~= rounds@);
        }
        i
    }

    /// Everything counted for a prize door: twice the rounds it has seen.
    pub fn total(&self, door: i8) -> (r: u128)
        requires
            self.wf(),
            is_door(door),
        ensures
            r == door_total(self@, door as int),
    {
        let base: usize = (door - 1) as usize * LABELS;
        let mut sum: u128 = 0;
        let mut l: usize = 0;
        while l < LABELS
            invariant
                self.wf(),
                is_door(door),
                base == (door - 1) * LABELS,
                l <= LABELS,
                sum == sum_labels(self@, door as int, l as int),
            decreases LABELS - l,
        {
            proof {
                lemma_sum_labels_bounds(self@, door as int, l as int);
            }
            sum = sum + self.counts[base + l] as u128;
            l = l + 1;
        }
        sum
    }

    /// The table of a prize door: one row per label it has counted, in the
    /// order of the labels' text, each with its count and its whole
    /// percentage of the door's total.
    pub fn rows(&self, door: i8) -> (r: Vec<Row>)
        requires
            self.wf(),
            is_door(door),
        ensures
            r@.len() == shown_labels(self@, door as int, LABELS as int).len(),
            forall|k: int|
                0 <= k < r@.len() ==> {
                    let l = shown_labels(self@, door as int, LABELS as int)[k];
                    let c = self@[slot(door as int, l)];
                    &&& (#[trigger] r@[k]).label@ == label_text(l)
                    &&& r@[k].count == c
                    &&& r@[k].percent == percent_of(c as int, door_total(self@, door as int))
                },
            forall|k1: int, k2: int|
                0 <= k1 < k2 < r@.len() ==> text_before(
                    (#[trigger] r@[k1]).label@,
                    (#[trigger] r@[k2]).label@,
                ),
    {
        let total = self.total(door);
        let ghost t = self@;
        let mut out: Vec<Row> = Vec::new();
        let mut l: usize = 0;
        while l < LABELS
            invariant
                self.wf(),
                t == self@,
                is_door(door),
                l <= LABELS,
                total == door_total(t, door as int),
                out@.len() == shown_labels(t, door as int, l as int).len(),
                forall|k: int|
                    0 <= k < out@.len() ==> {
                        let m = shown_labels(t, door as int, l as int)[k];
                        let c = t[slot(door as int, m)];
                        &&& (#[trigger] out@[k]).label@ == label_text(m)
                        &&& out@[k].count == c
                        &&& out@[k].percent == percent_of(c as int, door_total(t, door as int))
                    },
            decreases LABELS - l,
        {
            let c = self.count(door, l);
            if c > 0 {
                proof {
                    lemma_sum_labels_bounds(t, door as int, LABELS as int);
                }
                let row = Row { label: label_name(l), count: c, percent: percent(c, total) };
                out.push(row);
            }
            l = l + 1;
        }
        proof {
            let shown = shown_labels(t, door as int, LABELS as int);
            lemma_shown_increasing(t, door as int, LABELS as int);
            assert forall|k1: int, k2: int| 0 <= k1 < k2 < out@.len() implies text_before(
                (#[trigger] out@[k1]).label@,
                (#[trigger] out@[k2]).label@,
            ) by {
                labels_in_text_order(shown[k1], shown[k2]);
            }
        }
        out
    }
}

} // verus!
