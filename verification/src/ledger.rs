//! The stored form of the score ledger.
//!
//! The ledger is kept as two lines of text: the best scores, then the best
//! line counts. A line holds its numbers in decimal, without sign or leading
//! zeros, separated by single spaces, and ends with a line feed. What is
//! written is the five greatest entries of each list in ascending order;
//! what is read is whatever two lists the text holds.

use vstd::prelude::*;
use crate::score::{best_five, top_five};

verus! {

/// The byte between two numbers of a line.
pub const SPACE: u8 = 32;

/// The byte that ends a line.
pub const LINE_FEED: u8 = 10;

/// The byte of the digit zero.
pub const DIGIT_ZERO: u8 = 48;

/// The byte of the digit nine.
pub const DIGIT_NINE: u8 = 57;

/// The byte of the decimal digit `d`.
pub open spec fn digit_byte(d: nat) -> u8
    recommends
        d < 10,
{
    (48 + d) as u8
}

/// The decimal digits of a number, most significant first.
pub open spec fn decimal(n: nat) -> Seq<u8>
    decreases n,
{
    if n < 10 {
        seq![digit_byte(n)]
    } else {
        decimal(n / 10).push(digit_byte(n % 10))
    }
}

/// The numbers of a list in decimal, with one space between neighbours.
pub open spec fn line_text(values: Seq<u32>) -> Seq<u8>
    decreases values.len(),
{
    if values.len() == 0 {
        Seq::empty()
    } else if values.len() == 1 {
        decimal(values[0] as nat)
    } else {
        line_text(values.drop_last()).push(SPACE) + decimal(values.last() as nat)
    }
}

/// The stored form of a ledger: one line for each of its two lists.
pub open spec fn ledger_text(highscores: Seq<u32>, lines_sent: Seq<u32>) -> Seq<u8> {
    line_text(highscores).push(LINE_FEED) + line_text(lines_sent).push(LINE_FEED)
}

/// What a reader knows after some bytes of a text: the lines that have ended,
/// the numbers of the line that it is in, the number that it is in, and
/// whether it has met something that no ledger text holds.
struct Scan {
    lines: Seq<Seq<u32>>,
    line: Seq<u32>,
    number: Option<nat>,
    failed: bool,
}

spec fn scan_start() -> Scan {
    Scan { lines: Seq::empty(), line: Seq::empty(), number: None, failed: false }
}

spec fn scan_failed(s: Scan) -> Scan {
    Scan { failed: true, ..s }
}

spec fn scan_byte(s: Scan, b: u8) -> Scan {
    if s.failed {
        s
    } else if 48 <= b <= 57 {
        let digit = (b - 48) as nat;
        let value = match s.number {
            Some(front) => front * 10 + digit,
            None => digit,
        };
        if value > u32::MAX {
            scan_failed(s)
        } else {
            Scan { number: Some(value), ..s }
        }
    } else if b == SPACE {
        match s.number {
            Some(value) => Scan { line: s.line.push(value as u32), number: None, ..s },
            None => scan_failed(s),
        }
    } else if b == LINE_FEED {
        match s.number {
            Some(value) => Scan {
                lines: s.lines.push(s.line.push(value as u32)),
                line: Seq::empty(),
                number: None,
                failed: false,
            },
            None => if s.line.len() == 0 {
                Scan { lines: s.lines.push(Seq::empty()), ..s }
            } else {
                scan_failed(s)
            },
        }
    } else {
        scan_failed(s)
    }
}

spec fn scan(s: Scan, bytes: Seq<u8>) -> Scan
    decreases bytes.len(),
{
    if bytes.len() == 0 {
        s
    } else {
        scan_byte(scan(s, bytes.drop_last()), bytes.last())
    }
}

proof fn lemma_scan_push(s: Scan, bytes: Seq<u8>, b: u8)
    ensures
        scan(s, bytes.push(b)) == scan_byte(scan(s, bytes), b),
{
    assert(bytes.push(b).drop_last() =~= bytes);
}

proof fn lemma_scan_concat(s: Scan, a: Seq<u8>, b: Seq<u8>)
    ensures
        scan(s, a + b) == scan(scan(s, a), b),
    decreases b.len(),
{
    if b.len() == 0 {
        assert(a + b =~= a);
    } else {
        lemma_scan_concat(s, a, b.drop_last());
        assert((a + b).drop_last() =~= a + b.drop_last());
    }
}

/// A reader that is between two numbers reads the digits of a number as that
/// number.
proof fn lemma_scan_decimal(s: Scan, n: nat)
    requires
        !s.failed,
        s.number is None,
        n <= u32::MAX,
    ensures
        scan(s, decimal(n)) == (Scan { number: Some(n), ..s }),
    decreases n,
{
    if n < 10 {
        lemma_scan_push(s, Seq::empty(), digit_byte(n));
        assert(decimal(n) =~= Seq::<u8>::empty().push(digit_byte(n)));
    } else {
        lemma_scan_decimal(s, n / 10);
        lemma_scan_push(s, decimal(n / 10), digit_byte(n % 10));
    }
}

/// A reader at the start of a line reads the text of a list, up to its last
/// number, as that list.
proof fn lemma_scan_line(s: Scan, values: Seq<u32>)
    requires
        !s.failed,
        s.number is None,
        s.line.len() == 0,
        values.len() > 0,
    ensures
        scan(s, line_text(values)) == (Scan {
            line: values.drop_last(),
            number: Some(values.last() as nat),
            ..s
        }),
    decreases values.len(),
{
    if values.len() == 1 {
        lemma_scan_decimal(s, values[0] as nat);
        assert(values.drop_last() =~= s.line);
    } else {
        let front = values.drop_last();
        lemma_scan_line(s, front);
        lemma_scan_push(s, line_text(front), SPACE);
        let after_space = scan(s, line_text(front).push(SPACE));
        assert(front.drop_last().push(front.last()) =~= front);
        lemma_scan_concat(s, line_text(front).push(SPACE), decimal(values.last() as nat));
        lemma_scan_decimal(after_space, values.last() as nat);
    }
}

/// A reader at the start of a line reads the text of a list and the line feed
/// after it as one more line.
proof fn lemma_scan_whole_line(s: Scan, values: Seq<u32>)
    requires
        !s.failed,
        s.number is None,
        s.line.len() == 0,
    ensures
        scan(s, line_text(values).push(LINE_FEED)) == (Scan { lines: s.lines.push(values), ..s }),
{
    lemma_scan_push(s, line_text(values), LINE_FEED);
    if values.len() == 0 {
        assert(values =~= Seq::<u32>::empty());
        assert(s.line =~= Seq::<u32>::empty());
    } else {
        lemma_scan_line(s, values);
        assert(values.drop_last().push(values.last()) =~= values);
        assert(s.line =~= Seq::<u32>::empty());
    }
}

/// A reader reads the stored form of a ledger as the two lists of that ledger.
proof fn lemma_scan_ledger(highscores: Seq<u32>, lines_sent: Seq<u32>)
    ensures
        scan(scan_start(), ledger_text(highscores, lines_sent)) == (Scan {
            lines: seq![highscores, lines_sent],
            line: Seq::empty(),
            number: None,
            failed: false,
        }),
{
    let first = line_text(highscores).push(LINE_FEED);
    let second = line_text(lines_sent).push(LINE_FEED);
    lemma_scan_concat(scan_start(), first, second);
    lemma_scan_whole_line(scan_start(), highscores);
    lemma_scan_whole_line(scan(scan_start(), first), lines_sent);
    assert(Seq::<Seq<u32>>::empty().push(highscores).push(lines_sent) =~= seq![
        highscores,
        lines_sent,
    ]);
}

/// Two ledgers with the same stored form are the same ledger.
pub proof fn lemma_ledger_text_is_injective(
    highscores: Seq<u32>,
    lines_sent: Seq<u32>,
    other_highscores: Seq<u32>,
    other_lines_sent: Seq<u32>,
)
    requires
        ledger_text(highscores, lines_sent) == ledger_text(other_highscores, other_lines_sent),
    ensures
        highscores == other_highscores,
        lines_sent == other_lines_sent,
{
    lemma_scan_ledger(highscores, lines_sent);
    lemma_scan_ledger(other_highscores, other_lines_sent);
    let both = seq![highscores, lines_sent];
    let other = seq![other_highscores, other_lines_sent];
    assert(both == other);
    assert(both[0] == other[0]);
    assert(both[1] == other[1]);
}

/// Appends the decimal digits of `n`.
fn push_decimal(out: &mut Vec<u8>, n: u32)
    ensures
        final(out)@ == old(out)@ + decimal(n as nat),
    decreases n,
{
    if n >= 10 {
        push_decimal(out, n / 10);
    }
    out.push(DIGIT_ZERO + (n % 10) as u8);
    assert(out@ =~= old(out)@ + decimal(n as nat));
}

/// Appends the text of a list.
fn push_line(out: &mut Vec<u8>, values: &Vec<u32>)
    ensures
        final(out)@ == old(out)@ + line_text(values@),
{
    let mut i: usize = 0;
    assert(out@ =~= old(out)@ + line_text(values@.take(0)));
    while i < values.len()
        invariant
            i <= values.len(),
            out@ == old(out)@ + line_text(values@.take(i as int)),
        decreases values.len() - i,
    {
        if i > 0 {
            out.push(SPACE);
        }
        push_decimal(out, values[i]);
        proof {
            let now = values@.take(i + 1);
            assert(now.drop_last() =~= values@.take(i as int));
            assert(now.last() == values@[i as int]);
            assert(out@ =~= old(out)@ + line_text(now));
        }
        i += 1;
    }
    assert(values@.take(i as int) =~= values@);
}

/// The stored form of a ledger.
pub fn encode_ledger(highscores: &Vec<u32>, lines_sent: &Vec<u32>) -> (out: Vec<u8>)
    ensures
        out@ == ledger_text(highscores@, lines_sent@),
{
    let mut out: Vec<u8> = Vec::new();
    push_line(&mut out, highscores);
    out.push(LINE_FEED);
    push_line(&mut out, lines_sent);
    out.push(LINE_FEED);
    assert(out@ =~= ledger_text(highscores@, lines_sent@));
    out
}

/// The text that goes to the store for a ledger: the stored form of the five
/// greatest entries of each list, in ascending order.
pub fn text_to_store(highscores: &Vec<u32>, lines_sent: &Vec<u32>) -> (out: Vec<u8>)
    ensures
        out@ == ledger_text(best_five(highscores@), best_five(lines_sent@)),
{
    let best_scores = top_five(highscores);
    let best_lines = top_five(lines_sent);
    encode_ledger(&best_scores, &best_lines)
}

/// Whether two byte strings are the same.
fn same_bytes(a: &Vec<u8>, b: &[u8]) -> (same: bool)
    ensures
        same == (a@ == b@),
{
    if a.len() != b.len() {
        return false;
    }
    let mut i: usize = 0;
    while i < a.len()
        invariant
            i <= a.len(),
            a.len() == b.len(),
            forall|k: int| 0 <= k < i ==> a@[k] == b@[k],
        decreases a.len() - i,
    {
        if a[i] != b[i] {
            return false;
        }
        i += 1;
    }
    assert(a@ =~= b@);
    true
}

/// A reader that has failed stays so, whatever follows.
proof fn lemma_failed_stays_failed(s: Scan, rest: Seq<u8>)
    requires
        s.failed,
    ensures
        scan(s, rest).failed,
    decreases rest.len(),
{
    if rest.len() > 0 {
        lemma_failed_stays_failed(s, rest.drop_last());
    }
}

/// A text on which a reader fails is the stored form of no ledger.
proof fn lemma_failed_text_is_no_ledger(bytes: Seq<u8>, read: int)
    requires
        0 <= read <= bytes.len(),
        scan(scan_start(), bytes.take(read)).failed,
    ensures
        forall|highscores: Seq<u32>, lines_sent: Seq<u32>|
            bytes != #[trigger] ledger_text(highscores, lines_sent),
{
    let rest = bytes.skip(read);
    assert(bytes.take(read) + rest =~= bytes);
    lemma_scan_concat(scan_start(), bytes.take(read), rest);
    lemma_failed_stays_failed(scan(scan_start(), bytes.take(read)), rest);
    assert forall|highscores: Seq<u32>, lines_sent: Seq<u32>|
        bytes != #[trigger] ledger_text(highscores, lines_sent) by {
        lemma_scan_ledger(highscores, lines_sent);
    }
}

/// The ledger that a text is the stored form of. A text in any other form,
/// or with a number above `u32::MAX`, gives `None`.
pub fn decode_ledger(bytes: &[u8]) -> (stored: Option<(Vec<u32>, Vec<u32>)>)
    ensures
        stored matches Some(lists) ==> bytes@ == ledger_text(lists.0@, lists.1@),
        forall|highscores: Seq<u32>, lines_sent: Seq<u32>|
            bytes@ == #[trigger] ledger_text(highscores, lines_sent) ==> (stored matches Some(
                lists,
            ) && lists.0@ == highscores && lists.1@ == lines_sent),
{
    let mut lines: Vec<Vec<u32>> = Vec::new();
    let mut line: Vec<u32> = Vec::new();
    let mut number: Option<u32> = None;
    let mut i: usize = 0;
    assert(bytes@.take(0) =~= Seq::<u8>::empty());
    assert(lines.deep_view() =~~= Seq::<Seq<u32>>::empty());
    while i < bytes.len()
        invariant
            i <= bytes.len(),
            scan(scan_start(), bytes@.take(i as int)) == (Scan {
                lines: lines.deep_view(),
                line: line@,
                number: match number {
                    Some(value) => Some(value as nat),
                    None => None,
                },
                failed: false,
            }),
        decreases bytes.len() - i,
    {
        let b = bytes[i];
        proof {
            assert(bytes@.take(i + 1).drop_last() =~= bytes@.take(i as int));
            assert(bytes@.take(i + 1).last() == b);
        }
        let ghost lines_before = lines.deep_view();
        let mut failed = false;
        if DIGIT_ZERO <= b && b <= DIGIT_NINE {
            let digit: u64 = (b - DIGIT_ZERO) as u64;
            let value: u64 = match number {
                Some(front) => front as u64 * 10 + digit,
                None => digit,
            };
            if value > u32::MAX as u64 {
                failed = true;
            } else {
                number = Some(value as u32);
            }
        } else if b == SPACE {
            match number {
                Some(value) => {
                    line.push(value);
                    number = None;
                },
                None => {
                    failed = true;
                },
            }
        } else if b == LINE_FEED {
            match number {
                Some(value) => {
                    line.push(value);
                    let ghost done = line@;
                    lines.push(line);
                    line = Vec::new();
                    number = None;
                    assert(lines.deep_view() =~~= lines_before.push(done));
                },
                None => {
                    if line.len() == 0 {
                        let ghost done = line@;
                        lines.push(line);
                        line = Vec::new();
                        assert(lines.deep_view() =~~= lines_before.push(done));
                        assert(done =~= Seq::<u32>::empty());
                    } else {
                        failed = true;
                    }
                },
            }
        } else {
            failed = true;
        }
        if failed {
            proof {
                lemma_failed_text_is_no_ledger(bytes@, i + 1);
            }
            return None;
        }
        i += 1;
    }
    assert(bytes@.take(i as int) =~= bytes@);
    proof {
        assert forall|h: Seq<u32>, l: Seq<u32>|
            bytes@ == #[trigger] ledger_text(h, l) implies lines.deep_view() == seq![h, l]
            && line@.len() == 0 && number is None by {
            lemma_scan_ledger(h, l);
        }
    }
    assert(lines.deep_view().len() == lines.len());
    if lines.len() != 2 || line.len() != 0 || number.is_some() {
        proof {
            assert forall|h: Seq<u32>, l: Seq<u32>| bytes@ != #[trigger] ledger_text(h, l) by {
                assert(seq![h, l].len() == 2);
            }
        }
        return None;
    }
    let ghost both = lines.deep_view();
    let lines_sent = lines.pop().unwrap();
    let highscores = lines.pop().unwrap();
    assert(both[0] == highscores@ && both[1] == lines_sent@);
    // The reader takes a few texts that are not in the stored form, such as
    // numbers with leading zeros. Writing the lists out again tells.
    let again = encode_ledger(&highscores, &lines_sent);
    if same_bytes(&again, bytes) {
        Some((highscores, lines_sent))
    } else {
        None
    }
}

} // verus!
