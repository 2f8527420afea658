//! Heartbeats on the robot: how busy the machine is, and what the service asks for.

use vstd::prelude::*;

use crate::scan;
use crate::scan::{lines, parse_number, words};
use crate::text;
use crate::text::{same_text, starts_with};

verus! {

/// How many seconds lie between two heartbeats.
pub const HEARTBEAT_INTERVAL_SECS: u64 = 10;

/// How the processor spent its time: idle, and in all.
#[derive(Debug)]
pub struct CpuTimes {
    pub idle: u64,
    pub total: u128,
}

/// The numbers among words, in order. What is no number is passed over.
pub open spec fn numbers_among(list: Seq<Seq<char>>) -> Seq<u64>
    decreases list.len(),
{
    if list.len() == 0 {
        Seq::empty()
    } else {
        let earlier = numbers_among(list.drop_last());
        match scan::number_of(list.last()) {
            Some(n) => earlier.push(n),
            None => earlier,
        }
    }
}

/// The sum of numbers.
pub open spec fn sum_of(numbers: Seq<u64>) -> nat
    decreases numbers.len(),
{
    if numbers.len() == 0 {
        0
    } else {
        sum_of(numbers.drop_last()) + numbers.last() as nat
    }
}

/// The first line of a text, or nothing where there is none.
pub open spec fn first_line(s: Seq<char>) -> Seq<char> {
    let all = scan::lines_of(s);
    if all.len() > 0 {
        all[0]
    } else {
        Seq::empty()
    }
}

/// The times that the first line of the processor statistics gives: all the numbers behind
/// its first word.
pub open spec fn cpu_numbers(stat: Seq<char>) -> Seq<u64> {
    let all = scan::words_of(first_line(stat));
    numbers_among(
        if all.len() > 0 {
            all.drop_first()
        } else {
            all
        },
    )
}

/// How the processor spent its time, from the text of its statistics; nothing where that does
/// not give four times, or they are all zero.
pub fn parse_cpu_stat(stat: &str) -> (r: Option<CpuTimes>)
    ensures
        ({
            let numbers = cpu_numbers(stat@);
            if numbers.len() < 4 || sum_of(numbers) == 0 {
                r is None
            } else {
                r matches Some(times) && times.idle == numbers[3] && times.total == sum_of(numbers)
            }
        }),
        r matches Some(times) ==> times.idle <= times.total && times.total > 0,
        ({
            let all = scan::words_of(first_line(stat@));
            all.len() > 4 && scan::number_of(all[1]) is Some && scan::number_of(all[2]) is Some
                && scan::number_of(all[3]) is Some ==> (scan::number_of(all[4]) matches Some(idle)
                ==> (r matches Some(times) ==> times.idle == idle) && (idle > 0 ==> r is Some))
        }),
{
    let all: Vec<String> = lines(stat);
    let ghost said = scan::text_views(all@);
    let line: String = if all.len() > 0 {
        all[0].clone()
    } else {
        String::new()
    };
    assert(line@ =~= first_line(stat@));
    let list: Vec<String> = words(line.as_str());
    let ghost every = scan::text_views(list@);
    let start: usize = if list.len() > 0 {
        1
    } else {
        0
    };
    let ghost behind = every.skip(start as int);
    assert(behind =~= if every.len() > 0 {
        every.drop_first()
    } else {
        every
    });
    let mut numbers: Vec<u64> = Vec::new();
    let mut total: u128 = 0;
    let mut i: usize = start;
    assert(behind.take(0) =~= Seq::<Seq<char>>::empty());
    while i < list.len()
        invariant
            start <= i <= list@.len(),
            every == scan::text_views(list@),
            behind == every.skip(start as int),
            numbers@ =~= numbers_among(behind.take(i - start)),
            total == sum_of(numbers@),
            total <= numbers@.len() * u64::MAX,
            numbers@.len() <= i - start,
        decreases list.len() - i,
    {
        let ghost k = i - start;
        let ghost counted = numbers@;
        assert(behind.take(k + 1).drop_last() =~= behind.take(k));
        assert(behind.take(k + 1).last() == list@[i as int]@);
        match parse_number(list[i].as_str()) {
            Some(n) => {
                assert(total + n <= u128::MAX) by (nonlinear_arith)
                    requires
                        total <= counted.len() * u64::MAX,
                        counted.len() <= u64::MAX,
                ;
                total = total + n as u128;
                numbers.push(n);
                assert(numbers@.drop_last() =~= counted);
                assert(total <= numbers@.len() * u64::MAX) by (nonlinear_arith)
                    requires
                        total <= counted.len() * u64::MAX + n,
                        numbers@.len() == counted.len() + 1,
                ;
            },
            None => {},
        }
        i = i + 1;
    }
    assert(behind.take(i - start) =~= behind);
    proof {
        if numbers@.len() >= 4 {
            idle_is_part_of_total(numbers@, 3);
        }
        if every.len() > 4 {
            let (head, tail) = (behind.take(4), behind.skip(4));
            assert(head + tail =~= behind);
            numbers_keep_the_order_of_words(head, tail, behind[0]);
            if scan::number_of(every[1]) is Some && scan::number_of(every[2]) is Some
                && scan::number_of(every[3]) is Some && scan::number_of(every[4]) is Some {
                let first = seq![
                    scan::number_of(every[1])->0,
                    scan::number_of(every[2])->0,
                    scan::number_of(every[3])->0,
                    scan::number_of(every[4])->0,
                ];
                assert forall|k: int| 0 <= k < first.len() implies scan::number_of(head[k]) == Some(
                    #[trigger] first[k],
                ) by {
                    assert(head[k] == every[k + 1]);
                }
                lemma_numbers_in_place(head, first);
                assert(numbers@[3] == first[3]);
            }
        }
    }
    if numbers.len() < 4 || total == 0 {
        return None;
    }
    Some(CpuTimes { idle: numbers[3], total })
}

/// How much memory the machine has, and how much of it is free for use.
#[derive(Debug, Clone, Copy, PartialEq, Eq, Structural)]
pub struct MemoryCounts {
    pub total: u64,
    pub available: u64,
}

/// The number behind the first word of a line; zero where there is none.
pub open spec fn amount_on(line: Seq<char>) -> u64 {
    let all = scan::words_of(line);
    if all.len() < 2 {
        0
    } else {
        match scan::number_of(all[1]) {
            Some(n) => n,
            None => 0,
        }
    }
}

/// The counts after one more line. A line that names an amount replaces it.
pub open spec fn count_line(counts: MemoryCounts, line: Seq<char>) -> MemoryCounts {
    if text::begins_with(line, "MemTotal:"@) {
        MemoryCounts { total: amount_on(line), ..counts }
    } else if text::begins_with(line, "MemAvailable:"@) {
        MemoryCounts { available: amount_on(line), ..counts }
    } else {
        counts
    }
}

/// The counts that lines give, one after the other.
pub open spec fn memory_counts(list: Seq<Seq<char>>) -> MemoryCounts
    decreases list.len(),
{
    if list.len() == 0 {
        MemoryCounts { total: 0, available: 0 }
    } else {
        count_line(memory_counts(list.drop_last()), list.last())
    }
}

/// The number behind the first word of a line; zero where there is none.
fn read_amount(line: &str) -> (r: u64)
    ensures
        r == amount_on(line@),
{
    let all: Vec<String> = words(line);
    let ghost said = scan::text_views(all@);
    if all.len() < 2 {
        return 0;
    }
    assert(said[1] == all@[1]@);
    match parse_number(all[1].as_str()) {
        Some(n) => n,
        None => 0,
    }
}

/// How much memory there is, from the text of the memory statistics.
pub fn parse_meminfo(info: &str) -> (r: MemoryCounts)
    ensures
        r == memory_counts(scan::lines_of(info@)),
{
    let all: Vec<String> = lines(info);
    let ghost said = scan::text_views(all@);
    let mut counts = MemoryCounts { total: 0, available: 0 };
    let mut i: usize = 0;
    assert(said.take(0) =~= Seq::<Seq<char>>::empty());
    while i < all.len()
        invariant
            i <= all@.len(),
            said == scan::text_views(all@),
            counts == memory_counts(said.take(i as int)),
        decreases all.len() - i,
    {
        assert(said.take(i + 1).drop_last() =~= said.take(i as int));
        assert(said.take(i + 1).last() == all@[i as int]@);
        let line: &str = all[i].as_str();
        if starts_with(line, "MemTotal:") {
            counts.total = read_amount(line);
        } else if starts_with(line, "MemAvailable:") {
            counts.available = read_amount(line);
        }
        i = i + 1;
    }
    assert(said.take(i as int) =~= said);
    counts
}

impl MemoryCounts {
    /// How much memory is used, which is never more than there is; nothing where there is
    /// none. Where the statistics call more available than there is, none is used.
    pub fn used(&self) -> (r: Option<u64>)
        ensures
            r == (if self.total == 0 {
                None::<u64>
            } else if self.available <= self.total {
                Some((self.total - self.available) as u64)
            } else {
                Some(0u64)
            }),
            r matches Some(n) ==> n <= self.total,
            r is None <==> self.total == 0,
            r matches Some(n) ==> (self.available <= self.total ==> n + self.available
                == self.total),
            r matches Some(n) ==> (self.available > self.total ==> n == 0),
    {
        if self.total == 0 {
            None
        } else if self.available <= self.total {
            Some(self.total - self.available)
        } else {
            Some(0)
        }
    }
}

/// What the agent does about a directive.
#[derive(Debug, Clone, Copy, PartialEq, Eq, Structural)]
pub enum DirectiveAction {
    /// There is none.
    Ignore,
    /// It is noted and nothing else.
    Note,
    /// The machine is rebooted.
    Reboot,
}

/// What the agent does about a directive.
pub fn directive_action(directive: &str) -> (r: DirectiveAction)
    ensures
        r == (if directive@.len() == 0 {
            DirectiveAction::Ignore
        } else if directive@ == "reboot"@ {
            DirectiveAction::Reboot
        } else {
            DirectiveAction::Note
        }),
        r == DirectiveAction::Ignore <==> directive@.len() == 0,
        r == DirectiveAction::Reboot <==> directive@ == seq!['r', 'e', 'b', 'o', 'o', 't'],
{
    proof {
        reveal_strlit("reboot");
        assert("reboot"@ =~= seq!['r', 'e', 'b', 'o', 'o', 't']);
    }
    if directive.is_empty() {
        DirectiveAction::Ignore
    } else if same_text(directive, "reboot") {
        DirectiveAction::Reboot
    } else {
        DirectiveAction::Note
    }
}

/// The time idle is part of the time in all, so that a share of it lies between nothing and
/// everything.
pub proof fn idle_is_part_of_total(numbers: Seq<u64>, i: int)
    requires
        0 <= i < numbers.len(),
    ensures
        numbers[i] <= sum_of(numbers),
    decreases numbers.len(),
{
    if i < numbers.len() - 1 {
        idle_is_part_of_total(numbers.drop_last(), i);
    }
}

/// A line gives an amount: its second word writes that number, or the amount is zero and the
/// line has no second word that writes a number.
pub open spec fn gives(line: Seq<char>, amount: u64) -> bool {
    let all = scan::words_of(line);
    ||| all.len() >= 2 && scan::number_of(all[1]) == Some(amount)
    ||| amount == 0 && (all.len() < 2 || scan::number_of(all[1]) is None)
}

/// The memory in all is what the last line gives that begins with `MemTotal:`, and the memory
/// available is what the last line gives that begins with `MemAvailable:`; without such a line
/// the amount is zero. What other lines begin with does not matter.
pub proof fn amounts_stand_on_the_last_lines_that_name_them(list: Seq<Seq<char>>, i: int)
    requires
        0 <= i < list.len(),
    ensures
        "MemTotal:"@.is_prefix_of(list[i]) && (forall|j: int|
            i < j < list.len() ==> !"MemTotal:"@.is_prefix_of(#[trigger] list[j])) ==> gives(
            list[i],
            memory_counts(list).total,
        ),
        "MemAvailable:"@.is_prefix_of(list[i]) && (forall|j: int|
            i < j < list.len() ==> !"MemAvailable:"@.is_prefix_of(#[trigger] list[j])) ==> gives(
            list[i],
            memory_counts(list).available,
        ),
        (forall|j: int|
            0 <= j < list.len() ==> !"MemTotal:"@.is_prefix_of(#[trigger] list[j]))
            ==> memory_counts(list).total == 0,
        (forall|j: int|
            0 <= j < list.len() ==> !"MemAvailable:"@.is_prefix_of(#[trigger] list[j]))
            ==> memory_counts(list).available == 0,
    decreases list.len(),
{
    let last = list.last();
    let shorter = list.drop_last();
    lemma_labels_differ(last);
    assert forall|j: int| 0 <= j < shorter.len() implies #[trigger] shorter[j] == list[j] by {}
    assert(last == list[list.len() - 1]);
    if shorter.len() > 0 {
        let k = if i < shorter.len() {
            i
        } else {
            0
        };
        amounts_stand_on_the_last_lines_that_name_them(shorter, k);
    } else {
        assert(memory_counts(shorter) == MemoryCounts { total: 0, available: 0 });
    }
    if forall|j: int| 0 <= j < list.len() ==> !"MemTotal:"@.is_prefix_of(#[trigger] list[j]) {
        assert(!"MemTotal:"@.is_prefix_of(list[list.len() - 1]));
        assert forall|j: int| 0 <= j < shorter.len() implies !"MemTotal:"@.is_prefix_of(
            #[trigger] shorter[j],
        ) by {
            assert(shorter[j] == list[j]);
        }
    }
    if forall|j: int| 0 <= j < list.len() ==> !"MemAvailable:"@.is_prefix_of(#[trigger] list[j]) {
        assert(!"MemAvailable:"@.is_prefix_of(list[list.len() - 1]));
        assert forall|j: int| 0 <= j < shorter.len() implies !"MemAvailable:"@.is_prefix_of(
            #[trigger] shorter[j],
        ) by {
            assert(shorter[j] == list[j]);
        }
    }
}

/// No line begins with both labels.
proof fn lemma_labels_differ(line: Seq<char>)
    ensures
        !("MemTotal:"@.is_prefix_of(line) && "MemAvailable:"@.is_prefix_of(line)),
{
    reveal_strlit("MemTotal:");
    reveal_strlit("MemAvailable:");
    if "MemTotal:"@.is_prefix_of(line) && "MemAvailable:"@.is_prefix_of(line) {
        assert("MemTotal:"@[3] == line[3]);
        assert("MemAvailable:"@[3] == line[3]);
    }
}

/// A line that begins with neither label leaves both amounts as they are.
pub proof fn other_lines_change_nothing(list: Seq<Seq<char>>, line: Seq<char>)
    requires
        !"MemTotal:"@.is_prefix_of(line),
        !"MemAvailable:"@.is_prefix_of(line),
    ensures
        memory_counts(list.push(line)) == memory_counts(list),
{
    assert(list.push(line).drop_last() =~= list);
}

/// The numbers among words are those of the words that write one, in the order of the words:
/// the numbers of two rows of words are those of the first and then those of the second, and
/// a word alone has its number or none.
pub proof fn numbers_keep_the_order_of_words(a: Seq<Seq<char>>, b: Seq<Seq<char>>, word: Seq<char>)
    ensures
        numbers_among(a + b) == numbers_among(a) + numbers_among(b),
        numbers_among(seq![word]) == (match scan::number_of(word) {
            Some(n) => seq![n],
            None => Seq::<u64>::empty(),
        }),
    decreases b.len(),
{
    let one = seq![word];
    assert(one.drop_last() =~= Seq::<Seq<char>>::empty());
    assert(numbers_among(one.drop_last()) =~= Seq::<u64>::empty());
    assert(numbers_among(one) =~= match scan::number_of(word) {
        Some(n) => seq![n],
        None => Seq::<u64>::empty(),
    });
    if b.len() == 0 {
        assert(a + b =~= a);
        assert(numbers_among(a) + numbers_among(b) =~= numbers_among(a));
    } else {
        numbers_keep_the_order_of_words(a, b.drop_last(), word);
        assert((a + b).drop_last() =~= a + b.drop_last());
        assert((a + b).last() == b.last());
        assert(numbers_among(a + b) =~= numbers_among(a) + numbers_among(b));
    }
}

/// A sum is made of the sums of its parts, and a number alone is its own sum.
pub proof fn sums_are_made_of_parts(a: Seq<u64>, b: Seq<u64>, n: u64)
    ensures
        sum_of(a + b) == sum_of(a) + sum_of(b),
        sum_of(seq![n]) == n,
    decreases b.len(),
{
    let one = seq![n];
    assert(one.drop_last() =~= Seq::<u64>::empty());
    assert(sum_of(one.drop_last()) == 0);
    if b.len() == 0 {
        assert(a + b =~= a);
    } else {
        sums_are_made_of_parts(a, b.drop_last(), n);
        assert((a + b).drop_last() =~= a + b.drop_last());
        assert((a + b).last() == b.last());
    }
}

/// On a first line of a label and times that are all numbers, the times are these numbers,
/// each in its place; what stands on other lines does not matter.
pub proof fn processor_times_stand_behind_the_label(stat: Seq<char>, times: Seq<u64>)
    requires
        ({
            let list = scan::lines_of(stat);
            let all = scan::words_of(list[0]);
            &&& list.len() > 0
            &&& all.len() == times.len() + 1
            &&& forall|i: int|
                0 <= i < times.len() ==> scan::number_of(all[i + 1]) == Some(#[trigger] times[i])
        }),
    ensures
        cpu_numbers(stat) == times,
{
    let all = scan::words_of(scan::lines_of(stat)[0]);
    lemma_numbers_in_place(all.drop_first(), times);
}

/// Words that all write a number give these numbers.
proof fn lemma_numbers_in_place(list: Seq<Seq<char>>, numbers: Seq<u64>)
    requires
        list.len() == numbers.len(),
        forall|i: int|
            0 <= i < numbers.len() ==> scan::number_of(list[i]) == Some(#[trigger] numbers[i]),
    ensures
        numbers_among(list) == numbers,
    decreases list.len(),
{
    if list.len() > 0 {
        lemma_numbers_in_place(list.drop_last(), numbers.drop_last());
        assert(scan::number_of(list.last()) == Some(numbers[numbers.len() - 1]));
        assert(numbers_among(list) =~= numbers);
    } else {
        assert(numbers_among(list) =~= numbers);
    }
}

/// Where there is no line, or the first line has at most one word, there are no times.
pub proof fn no_times_without_words(stat: Seq<char>)
    requires
        scan::lines_of(stat).len() == 0 || scan::words_of(scan::lines_of(stat)[0]).len() <= 1,
    ensures
        cpu_numbers(stat).len() == 0,
{
    assert(scan::words_of(Seq::empty()).len() == 0);
}

} // verus!
