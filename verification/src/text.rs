//! Texts: decimal numbers, lines, and the text of a log.

use vstd::prelude::*;

verus! {

/// `String::push` of the standard library: appends one character.
pub assume_specification[ String::push ](s: &mut String, c: char)
    ensures
        final(s)@ == old(s)@.push(c),
;

/// The character of a decimal digit.
pub open spec fn digit_char(d: int) -> char {
    (d + 48) as char
}

/// A natural number in decimal, without leading zeros.
pub open spec fn digits(n: nat) -> Seq<char>
    decreases n,
{
    if n < 10 {
        seq![digit_char(n as int)]
    } else {
        digits(n / 10).push(digit_char((n % 10) as int))
    }
}

/// A whole number in decimal, with a sign where it is negative.
pub open spec fn decimal(i: int) -> Seq<char> {
    if i < 0 {
        seq!['-'] + digits((-i) as nat)
    } else {
        digits(i as nat)
    }
}

/// The character of a decimal digit.
fn digit_of(d: u64) -> (c: char)
    requires
        d < 10,
    ensures
        c == digit_char(d as int),
{
    match d {
        0 => '0',
        1 => '1',
        2 => '2',
        3 => '3',
        4 => '4',
        5 => '5',
        6 => '6',
        7 => '7',
        8 => '8',
        _ => '9',
    }
}

/// Appends a natural number in decimal.
fn append_digits(out: &mut String, n: u64)
    ensures
        final(out)@ == old(out)@ + digits(n as nat),
    decreases n,
{
    if n >= 10 {
        append_digits(out, n / 10);
    }
    out.push(digit_of(n % 10));
    assert(out@ =~= old(out)@ + digits(n as nat));
}

/// A whole number in decimal.
pub fn decimal_of(i: i64) -> (text: String)
    ensures
        text@ == decimal(i as int),
{
    let mut out = String::new();
    if i < 0 {
        out.push('-');
        let magnitude: u64 = (-(i + 1)) as u64 + 1;
        append_digits(&mut out, magnitude);
    } else {
        append_digits(&mut out, i as u64);
    }
    assert(out@ =~= decimal(i as int));
    out
}

/// Whether a character is white space in the sense of Unicode.
pub open spec fn is_white_space(c: char) -> bool {
    let u = c as u32;
    ||| 0x9 <= u <= 0xD
    ||| u == 0x20
    ||| u == 0x85
    ||| u == 0xA0
    ||| u == 0x1680
    ||| 0x2000 <= u <= 0x200A
    ||| u == 0x2028
    ||| u == 0x2029
    ||| u == 0x202F
    ||| u == 0x205F
    ||| u == 0x3000
}

/// Whether a text holds nothing but white space.
pub open spec fn is_blank(text: Seq<char>) -> bool {
    forall|i: int| #![trigger text[i]] 0 <= i < text.len() ==> is_white_space(text[i])
}

/// Whether a character is white space in the sense of Unicode.
fn white_space(c: char) -> (b: bool)
    ensures
        b == is_white_space(c),
{
    let u: u32 = c as u32;
    (0x9 <= u && u <= 0xD) || u == 0x20 || u == 0x85 || u == 0xA0 || u == 0x1680 || (0x2000 <= u
        && u <= 0x200A) || u == 0x2028 || u == 0x2029 || u == 0x202F || u == 0x205F || u == 0x3000
}

/// Whether a text holds nothing but white space.
pub fn blank(text: &str) -> (b: bool)
    ensures
        b == is_blank(text@),
{
    for c in it: text.chars()
        invariant
            it.seq() == text@,
            forall|i: int| #![trigger text@[i]] 0 <= i < it.index() ==> is_white_space(text@[i]),
    {
        if !white_space(c) {
            assert(!is_white_space(text@[it.index()]));
            return false;
        }
    }
    true
}

/// What each of the texts holds.
pub open spec fn views(texts: Seq<String>) -> Seq<Seq<char>> {
    Seq::new(texts.len(), |i: int| texts[i]@)
}

/// A line without the carriage return that goes with the line feed behind it.
pub open spec fn without_return(line: Seq<char>) -> Seq<char> {
    if line.len() > 0 && line.last() == '\r' {
        line.drop_last()
    } else {
        line
    }
}

/// The lines of a text.
///
/// A line ends at a line feed, or at a carriage return and a line feed; the end of the last
/// line may be left out.
pub open spec fn lines(text: Seq<char>) -> Seq<Seq<char>>
    decreases text.len(),
{
    if text.len() == 0 {
        Seq::empty()
    } else if text.contains('\n') {
        let end = text.index_of_first('\n')->Some_0;
        proof {
            text.index_of_first_ensures('\n');
        }
        seq![without_return(text.take(end))] + lines(text.skip(end + 1))
    } else {
        seq![text]
    }
}

/// The line feed in the middle ends the first line.
proof fn lemma_lines_step(head: Seq<char>, rest: Seq<char>)
    requires
        !head.contains('\n'),
    ensures
        lines(head.push('\n') + rest) == seq![without_return(head)] + lines(rest),
{
    let text = head.push('\n') + rest;
    let end = head.len() as int;
    assert(text[end] == '\n');
    text.index_of_first_ensures('\n');
    let found = text.index_of_first('\n')->Some_0;
    if found < end {
        assert(head[found] == '\n');
    }
    assert(found == end);
    assert(text.take(end) =~= head);
    assert(text.skip(end + 1) =~= rest);
}

/// The lines of a text, each in a text of its own.
pub fn split_lines(text: &str) -> (found: Vec<String>)
    ensures
        views(found@) == lines(text@),
{
    let mut found: Vec<String> = Vec::new();
    let mut line = String::new();
    // A carriage return is held back until it is known whether a line feed comes next.
    let mut held = false;
    let ghost mut head: Seq<char> = Seq::empty();
    assert(views(found@) + lines(head + text@.skip(0)) =~= lines(text@)) by {
        assert(head + text@.skip(0) =~= text@);
    }
    for c in it: text.chars()
        invariant
            it.seq() == text@,
            head == (if held {
                line@.push('\r')
            } else {
                line@
            }),
            !held ==> (line@.len() == 0 || line@.last() != '\r'),
            !head.contains('\n'),
            views(found@) + lines(head + text@.skip(it.index())) == lines(text@),
    {
        let ghost i = it.index();
        let ghost before = head;
        let ghost done = views(found@);
        assert(text@.skip(i) =~= seq![c] + text@.skip(i + 1));
        assert(before + text@.skip(i) =~= before.push(c) + text@.skip(i + 1));
        if c == '\n' {
            proof {
                lemma_lines_step(before, text@.skip(i + 1));
                head = Seq::empty();
                assert(without_return(before) =~= line@);
            }
            let ghost ended = line@;
            found.push(line);
            assert(views(found@) =~= done.push(ended));
            line = String::new();
            held = false;
            assert(head + text@.skip(i + 1) =~= text@.skip(i + 1));
            assert(views(found@) + lines(head + text@.skip(i + 1)) =~= done + (seq![ended]
                + lines(text@.skip(i + 1))));
        } else {
            if held {
                line.push('\r');
            }
            if c == '\r' {
                held = true;
            } else {
                held = false;
                line.push(c);
            }
            proof {
                head = before.push(c);
                assert forall|k: int| 0 <= k < head.len() implies head[k] != '\n' by {
                    if k < before.len() {
                        assert(before[k] != '\n');
                    }
                }
            }
        }
    }
    assert(head + text@.skip(text@.len() as int) =~= head);
    let ghost done = views(found@);
    if held {
        line.push('\r');
    }
    assert(line@ == head);
    if line.as_str().is_empty() {
        assert(lines(head) =~= Seq::<Seq<char>>::empty());
        assert(done + lines(head) =~= done);
    } else {
        let ghost last = line@;
        found.push(line);
        assert(views(found@) =~= done.push(last));
        assert(lines(head) =~= seq![last]);
        assert(done + lines(head) =~= done.push(last));
    }
    found
}

/// The lines that are not blank.
pub open spec fn solid(all: Seq<Seq<char>>) -> Seq<Seq<char>> {
    all.filter(|line: Seq<char>| !is_blank(line))
}

/// The lines of a text that are not blank.
pub fn solid_lines(text: &str) -> (kept: Vec<String>)
    ensures
        views(kept@) == solid(lines(text@)),
{
    let all = split_lines(text);
    let mut kept: Vec<String> = Vec::new();
    let ghost told = views(all@);
    let ghost keep = |line: Seq<char>| !is_blank(line);
    let mut i: usize = 0;
    assert(views(kept@) =~= told.take(0).filter(keep)) by {
        reveal(Seq::filter);
    }
    while i < all.len()
        invariant
            i <= all.len(),
            told == views(all@),
            keep == (|line: Seq<char>| !is_blank(line)),
            views(kept@) == told.take(i as int).filter(keep),
        decreases all.len() - i,
    {
        let ghost before = views(kept@);
        proof {
            reveal(Seq::filter);
            assert(told.take(i + 1).drop_last() =~= told.take(i as int));
            assert(told.take(i + 1).last() == all@[i as int]@);
        }
        if !blank(all[i].as_str()) {
            kept.push(all[i].clone());
            assert(views(kept@) =~= before.push(all@[i as int]@));
        }
        i += 1;
    }
    assert(told.take(all.len() as int) =~= told);
    kept
}

/// The lines, with a line feed between any two of them.
pub open spec fn joined(all: Seq<Seq<char>>) -> Seq<char>
    decreases all.len(),
{
    if all.len() == 0 {
        Seq::empty()
    } else if all.len() == 1 {
        all[0]
    } else {
        joined(all.drop_last()).push('\n') + all.last()
    }
}

/// The text of a log: the lines, with a line feed behind each, or nothing where that would be
/// the line feed alone.
pub open spec fn log_text(all: Seq<Seq<char>>) -> Seq<char> {
    if joined(all).len() == 0 {
        Seq::empty()
    } else {
        joined(all).push('\n')
    }
}

/// The text of a log.
pub fn log_text_of(all: &Vec<String>) -> (text: String)
    ensures
        text@ == log_text(views(all@)),
{
    let ghost told = views(all@);
    let mut out = String::new();
    let mut i: usize = 0;
    while i < all.len()
        invariant
            i <= all.len(),
            told == views(all@),
            out@ == joined(told.take(i as int)),
        decreases all.len() - i,
    {
        proof {
            assert(told.take(i + 1).drop_last() =~= told.take(i as int));
            assert(told.take(i + 1).last() == all@[i as int]@);
        }
        if i > 0 {
            out.push('\n');
        }
        out.append(all[i].as_str());
        assert(out@ =~= joined(told.take(i + 1)));
        i += 1;
    }
    assert(told.take(all.len() as int) =~= told);
    if !out.as_str().is_empty() {
        out.push('\n');
    }
    out
}

/// The lines of a text that ends a line, followed by another text, are the lines of both.
proof fn lemma_lines_join(a: Seq<char>, b: Seq<char>)
    requires
        a.len() == 0 || a.last() == '\n',
    ensures
        lines(a + b) == lines(a) + lines(b),
    decreases a.len(),
{
    if a.len() == 0 {
        assert(a + b =~= b);
        assert(lines(a) + lines(b) =~= lines(b));
    } else {
        assert(a.contains('\n'));
        a.index_of_first_ensures('\n');
        let end = a.index_of_first('\n')->Some_0;
        let head = a.take(end);
        let rest = a.skip(end + 1);
        assert(!head.contains('\n'));
        assert(head.push('\n') + rest =~= a);
        assert(head.push('\n') + (rest + b) =~= a + b);
        lemma_lines_step(head, rest);
        lemma_lines_step(head, rest + b);
        if rest.len() > 0 {
            assert(rest.last() == a.last());
        }
        lemma_lines_join(rest, b);
        assert(lines(a + b) =~= lines(a) + lines(b));
    }
}

/// Whether a line survives being written to a log and read back: it holds no line feed, does
/// not end in a carriage return, and is not blank.
pub open spec fn is_log_line(line: Seq<char>) -> bool {
    &&& !line.contains('\n')
    &&& without_return(line) == line
    &&& !is_blank(line)
}

/// What is written to a log is what is read back of it, line for line.
pub proof fn law_log_reads_back(all: Seq<Seq<char>>)
    requires
        forall|i: int| #![trigger all[i]] 0 <= i < all.len() ==> is_log_line(all[i]),
    ensures
        lines(log_text(all)) == all,
        solid(lines(log_text(all))) == all,
{
    lemma_log_lines(all);
    lemma_solid_keeps(all);
}

/// Lines that are not blank are all kept.
proof fn lemma_solid_keeps(all: Seq<Seq<char>>)
    requires
        forall|i: int| #![trigger all[i]] 0 <= i < all.len() ==> is_log_line(all[i]),
    ensures
        solid(all) == all,
    decreases all.len(),
{
    reveal(Seq::filter);
    if all.len() > 0 {
        let front = all.drop_last();
        assert forall|i: int| #![trigger front[i]] 0 <= i < front.len() implies is_log_line(
            front[i],
        ) by {
            assert(front[i] == all[i]);
        }
        lemma_solid_keeps(front);
        assert(is_log_line(all[all.len() - 1]));
        assert(front.push(all.last()) =~= all);
    }
}

/// A further line adds itself and a line feed to the text of a log.
proof fn lemma_log_grows(front: Seq<Seq<char>>, last: Seq<char>)
    requires
        forall|i: int| #![trigger front[i]] 0 <= i < front.len() ==> is_log_line(front[i]),
        last.len() > 0,
    ensures
        log_text(front.push(last)) == log_text(front) + last.push('\n'),
{
    let all = front.push(last);
    lemma_joined_is_solid(front);
    assert(all.drop_last() =~= front);
    assert(log_text(all) =~= log_text(front) + last.push('\n'));
}

/// The lines of the text of a log are those that it was made of.
proof fn lemma_log_lines(all: Seq<Seq<char>>)
    requires
        forall|i: int| #![trigger all[i]] 0 <= i < all.len() ==> is_log_line(all[i]),
    ensures
        lines(log_text(all)) == all,
    decreases all.len(),
{
    if all.len() == 0 {
        assert(log_text(all) =~= Seq::<char>::empty());
        assert(lines(log_text(all)) =~= all);
    } else {
        let front = all.drop_last();
        let last = all.last();
        assert(is_log_line(all[all.len() - 1]));
        assert forall|i: int| #![trigger front[i]] 0 <= i < front.len() implies is_log_line(
            front[i],
        ) by {
            assert(front[i] == all[i]);
        }
        lemma_log_lines(front);
        assert(last.len() > 0) by {
            if last.len() == 0 {
                assert(is_blank(last));
            }
        }
        lemma_log_grows(front, last);
        assert(front.push(last) =~= all);
        let tail = last.push('\n');
        lemma_lines_join(log_text(front), tail);
        lemma_lines_step(last, Seq::empty());
        assert(tail + Seq::<char>::empty() =~= tail);
        assert(lines(Seq::<char>::empty()) =~= Seq::<Seq<char>>::empty());
        assert(lines(tail) =~= seq![last]);
        assert(front + seq![last] =~= all);
    }
}

/// Lines that are not blank do not join to nothing.
proof fn lemma_joined_is_solid(all: Seq<Seq<char>>)
    requires
        forall|i: int| #![trigger all[i]] 0 <= i < all.len() ==> is_log_line(all[i]),
    ensures
        all.len() > 0 ==> joined(all).len() > 0,
{
    if all.len() == 1 {
        assert(is_log_line(all[0]));
        if all[0].len() == 0 {
            assert(is_blank(all[0]));
        }
    }
}

/// Whether a character is a decimal digit.
pub open spec fn is_digit(c: char) -> bool {
    '0' <= c <= '9'
}

/// The number that a row of decimal digits stands for.
pub open spec fn digits_value(row: Seq<char>) -> nat
    decreases row.len(),
{
    if row.len() == 0 {
        0
    } else {
        (10 * digits_value(row.drop_last()) + (row.last() as int - 48)) as nat
    }
}

/// A text without the plus sign that it may begin with.
pub open spec fn without_plus(text: Seq<char>) -> Seq<char> {
    if text.len() > 0 && text[0] == '+' {
        text.skip(1)
    } else {
        text
    }
}

/// The number that a text stands for: one or more decimal digits, behind a plus sign or not, of
/// a number that a `u64` can hold.
pub open spec fn parsed_natural(text: Seq<char>) -> Option<u64> {
    let row = without_plus(text);
    if row.len() > 0 && (forall|i: int| #![trigger row[i]] 0 <= i < row.len() ==> is_digit(row[i]))
        && digits_value(row) <= u64::MAX {
        Some(digits_value(row) as u64)
    } else {
        None
    }
}

/// A row of digits stands for no less than any row that it begins with.
proof fn lemma_digits_value_grows(row: Seq<char>, k: int)
    requires
        0 <= k <= row.len(),
        forall|i: int| #![trigger row[i]] 0 <= i < row.len() ==> is_digit(row[i]),
    ensures
        digits_value(row.take(k)) <= digits_value(row),
    decreases row.len() - k,
{
    if k == row.len() {
        assert(row.take(k) =~= row);
    } else {
        lemma_digits_value_grows(row, k + 1);
        assert(row.take(k + 1).drop_last() =~= row.take(k));
        assert(is_digit(row[k]));
    }
}

/// The number that a text stands for.
pub fn parse_natural(text: &str) -> (n: Option<u64>)
    ensures
        n == parsed_natural(text@),
{
    let ghost row = without_plus(text@);
    let ghost skipped: int = text@.len() - row.len();
    let mut value: u64 = 0;
    let mut first = true;
    let mut any = false;
    for c in it: text.chars()
        invariant
            it.seq() == text@,
            row == without_plus(text@),
            skipped == text@.len() - row.len(),
            first == (it.index() == 0),
            any == (it.index() > skipped),
            it.index() >= skipped ==> value == digits_value(row.take(it.index() - skipped)),
            it.index() < skipped ==> value == 0,
            forall|i: int|
                #![trigger row[i]]
                0 <= i < it.index() - skipped ==> is_digit(row[i]),
    {
        let ghost k = it.index() - skipped;
        if first && c == '+' {
            assert(row.take(0) =~= Seq::<char>::empty());
        } else {
            assert(row[k] == c);
            if c < '0' || '9' < c {
                assert(!is_digit(row[k]));
                return None;
            }
            let digit: u64 = (c as u32 - 48) as u64;
            proof {
                assert(row.take(k + 1).drop_last() =~= row.take(k));
                assert(row.take(k + 1).last() == c);
                if k == 0 {
                    assert(row.take(0) =~= Seq::<char>::empty());
                }
            }
            if value > (u64::MAX - digit) / 10 {
                proof {
                    if forall|i: int| #![trigger row[i]] 0 <= i < row.len() ==> is_digit(row[i]) {
                        lemma_digits_value_grows(row, k + 1);
                    }
                }
                return None;
            }
            value = 10 * value + digit;
            any = true;
        }
        first = false;
    }
    assert(row.take(row.len() as int) =~= row);
    if any {
        Some(value)
    } else {
        None
    }
}

/// The digits of a number stand for it.
proof fn lemma_digits_stand_for(n: nat)
    ensures
        digits(n).len() > 0,
        forall|i: int| #![trigger digits(n)[i]] 0 <= i < digits(n).len() ==> is_digit(digits(n)[i]),
        digits_value(digits(n)) == n,
    decreases n,
{
    if n < 10 {
        assert(digits(n).drop_last() =~= Seq::<char>::empty());
        assert(digits_value(Seq::<char>::empty()) == 0);
    } else {
        let front = digits(n / 10);
        lemma_digits_stand_for(n / 10);
        assert(digits(n).drop_last() =~= front);
        assert forall|i: int| #![trigger digits(n)[i]] 0 <= i < digits(n).len() implies is_digit(
            digits(n)[i],
        ) by {
            if i < front.len() {
                assert(digits(n)[i] == front[i]);
            }
        }
    }
}

/// A number in decimal is a row of digits, behind a sign where it is negative.
pub proof fn law_decimal_is_digits(i: int)
    ensures
        decimal(i).len() > 0,
        forall|k: int|
            #![trigger decimal(i)[k]]
            0 <= k < decimal(i).len() ==> is_digit(decimal(i)[k]) || (k == 0 && i < 0
                && decimal(i)[k] == '-'),
{
    let m: nat = (if i < 0 {
        -i
    } else {
        i
    }) as nat;
    lemma_digits_stand_for(m);
    assert forall|k: int| #![trigger decimal(i)[k]] 0 <= k < decimal(i).len() implies is_digit(
        decimal(i)[k],
    ) || (k == 0 && i < 0 && decimal(i)[k] == '-') by {
        if i < 0 && k > 0 {
            assert(decimal(i)[k] == digits(m)[k - 1]);
        }
    }
}

/// A number written in decimal reads back as itself.
pub proof fn law_decimal_reads_back(n: u64)
    ensures
        parsed_natural(decimal(n as int)) == Some(n),
{
    lemma_digits_stand_for(n as nat);
    assert(is_digit(digits(n as nat)[0]));
}

/// Different numbers are written differently.
pub proof fn law_decimal_is_unambiguous(a: int, b: int)
    requires
        decimal(a) == decimal(b),
    ensures
        a == b,
{
    let m: nat = (if a < 0 {
        -a
    } else {
        a
    }) as nat;
    let n: nat = (if b < 0 {
        -b
    } else {
        b
    }) as nat;
    lemma_digits_stand_for(m);
    lemma_digits_stand_for(n);
    assert(is_digit(digits(m)[0]));
    assert(is_digit(digits(n)[0]));
    if a < 0 {
        assert(decimal(a)[0] == '-');
        assert(decimal(a).skip(1) =~= digits(m));
    }
    if b < 0 {
        assert(decimal(b)[0] == '-');
        assert(decimal(b).skip(1) =~= digits(n));
    }
}

/// A number in decimal is the digits of its size, without leading zeros, behind a minus sign
/// where it is negative.
pub proof fn law_decimal_digits(i: int)
    ensures
        ({
            let row = decimal(i);
            &&& row.len() > 0
            &&& forall|k: int|
                #![trigger row[k]]
                0 <= k < row.len() && !(i < 0 && k == 0) ==> '0' <= row[k] <= '9'
            &&& i >= 0 ==> digits_value(row) == i && (row.len() > 1 ==> row[0] != '0')
            &&& i < 0 ==> row[0] == '-' && row.len() > 1 && row[1] != '0' && digits_value(
                row.skip(1),
            ) == -i
        }),
{
    let m: nat = (if i < 0 {
        -i
    } else {
        i
    }) as nat;
    lemma_digits_stand_for(m);
    lemma_no_leading_zero(m);
    let row = decimal(i);
    if i < 0 {
        assert(row.skip(1) =~= digits(m));
    }
    assert forall|k: int| #![trigger row[k]] 0 <= k < row.len() && !(i < 0 && k == 0) implies '0'
        <= row[k] <= '9' by {
        if i < 0 {
            assert(row[k] == digits(m)[k - 1]);
        } else {
            assert(is_digit(digits(m)[k]));
        }
    }
}

/// The digits of a number begin with no zero, but for zero itself.
proof fn lemma_no_leading_zero(n: nat)
    ensures
        digits(n).len() > 0,
        n > 0 ==> digits(n)[0] != '0',
        n == 0 ==> digits(n).len() == 1,
    decreases n,
{
    if n >= 10 {
        lemma_no_leading_zero(n / 10);
    }
}

/// A text ends its first line at its first line feed, and a carriage return before that does not
/// belong to the line; what comes behind are the other lines. A text without a line feed is one
/// line, and an empty text none.
pub proof fn law_a_line_ends_at_a_line_feed(head: Seq<char>, rest: Seq<char>)
    requires
        !head.contains('\n'),
    ensures
        ({
            let line = if head.len() > 0 && head.last() == '\r' {
                head.drop_last()
            } else {
                head
            };
            lines(head.push('\n') + rest) == seq![line] + lines(rest)
        }),
        head.len() == 0 ==> lines(head).len() == 0,
        head.len() > 0 ==> lines(head) == seq![head],
{
    lemma_lines_step(head, rest);
}

/// The lines of a text are given out each in a text of its own, and those that are not blank are
/// given out in their order.
///
/// What is given is where those lie among all lines.
pub proof fn law_blank_lines_are_left_out(
    text: &str,
    all: Vec<String>,
    kept: Vec<String>,
) -> (at: Seq<int>)
    requires
        call_ensures(split_lines, (text,), all),
        call_ensures(solid_lines, (text,), kept),
    ensures
        all@.len() == lines(text@).len(),
        forall|i: int| #![trigger all@[i]] 0 <= i < all@.len() ==> all@[i]@ == lines(text@)[i],
        at.len() == kept@.len(),
        forall|k: int|
            #![trigger kept@[k]]
            0 <= k < kept@.len() ==> 0 <= at[k] < all@.len() && kept@[k]@ == all@[at[k]]@,
        forall|k: int, m: int|
            #![trigger at[k], at[m]]
            0 <= k < m < at.len() ==> at[k] < at[m],
        forall|i: int|
            #![trigger all@[i]]
            0 <= i < all@.len() ==> (at.contains(i) <==> exists|c: int|
                0 <= c < all@[i]@.len() && !is_white_space(#[trigger] all@[i]@[c])),
{
    let told = lines(text@);
    assert(views(all@).len() == all@.len());
    assert forall|i: int| #![trigger all@[i]] 0 <= i < all@.len() implies all@[i]@ == told[i] by {
        assert(views(all@)[i] == all@[i]@);
    }
    let at = lemma_solid_at(told);
    assert(views(kept@).len() == kept@.len());
    assert forall|k: int| #![trigger kept@[k]] 0 <= k < kept@.len() implies 0 <= at[k] < all@.len()
        && kept@[k]@ == all@[at[k]]@ by {
        assert(views(kept@)[k] == kept@[k]@);
        assert(0 <= at[k] < told.len());
        assert(all@[at[k]]@ == told[at[k]]);
    }
    assert forall|i: int| #![trigger all@[i]] 0 <= i < all@.len() implies (at.contains(i)
        <==> exists|c: int|
        0 <= c < all@[i]@.len() && !is_white_space(#[trigger] all@[i]@[c])) by {
        assert(all@[i]@ == told[i]);
        if at.contains(i) {
            let k = at.index_of(i);
            assert(at[k] == i);
        }
    }
    at
}

/// Where the lines lie that are not blank.
proof fn lemma_solid_at(all: Seq<Seq<char>>) -> (at: Seq<int>)
    ensures
        at.len() == solid(all).len(),
        forall|k: int|
            #![trigger at[k]]
            0 <= k < at.len() ==> 0 <= at[k] < all.len() && solid(all)[k] == all[at[k]]
                && !is_blank(all[at[k]]),
        forall|k: int, m: int|
            #![trigger at[k], at[m]]
            0 <= k < m < at.len() ==> at[k] < at[m],
        forall|i: int|
            #![trigger all[i]]
            0 <= i < all.len() && !is_blank(all[i]) ==> at.contains(i),
    decreases all.len(),
{
    reveal(Seq::filter);
    if all.len() == 0 {
        Seq::empty()
    } else {
        let front = all.drop_last();
        let before = lemma_solid_at(front);
        let last = all.len() - 1;
        let at = if is_blank(all.last()) {
            before
        } else {
            before.push(last)
        };
        assert forall|k: int| #![trigger at[k]] 0 <= k < at.len() implies 0 <= at[k] < all.len()
            && solid(all)[k] == all[at[k]] && !is_blank(all[at[k]]) by {
            if k < before.len() {
                assert(at[k] == before[k]);
                assert(front[before[k]] == all[before[k]]);
            }
        }
        assert forall|i: int|
            #![trigger all[i]]
            0 <= i < all.len() && !is_blank(all[i]) implies at.contains(i) by {
            if i < last {
                assert(front[i] == all[i]);
                let k = before.index_of(i);
                assert(before[k] == i);
                assert(at[k] == i);
            } else {
                assert(at[at.len() - 1] == i);
            }
        }
        at
    }
}

/// White space is what Unicode counts as such.
pub proof fn law_white_space_is_that_of_unicode(c: char)
    ensures
        is_white_space(c) <==> c == ' ' || c == '\t' || c == '\n' || c == '\r' || c as u32 == 0x0B
            || c as u32 == 0x0C || c as u32 == 0x85 || c as u32 == 0xA0 || c as u32 == 0x1680 || (
        0x2000 <= c as u32 && c as u32 <= 0x200A) || c as u32 == 0x2028 || c as u32 == 0x2029
            || c as u32 == 0x202F || c as u32 == 0x205F || c as u32 == 0x3000,
{
}

/// A text is blank where every character of it is white space.
pub proof fn law_blank_is_white_space_alone(text: &str, b: bool)
    requires
        call_ensures(blank, (text,), b),
    ensures
        b <==> forall|i: int| #![trigger text@[i]] 0 <= i < text@.len() ==> is_white_space(text@[i]),
{
}

/// The text of a log grows by a line and a line feed for every line, and of no lines it is empty;
/// only a first line that is itself empty leaves nothing behind.
pub proof fn law_a_log_grows_line_by_line(
    all: &Vec<String>,
    more: &Vec<String>,
    before: String,
    after: String,
)
    requires
        call_ensures(log_text_of, (all,), before),
        call_ensures(log_text_of, (more,), after),
        more@.len() == all@.len() + 1,
        forall|i: int| #![trigger all@[i]] 0 <= i < all@.len() ==> all@[i]@ == more@[i]@,
    ensures
        all@.len() == 0 ==> before@.len() == 0,
        all@.len() == 0 && more@.last()@.len() == 0 ==> after@.len() == 0,
        before@.len() > 0 || (all@.len() == 0 && more@.last()@.len() > 0) ==> after@ == before@
            + more@.last()@ + seq!['\n'],
{
    let a = views(all@);
    let b = views(more@);
    assert(b.drop_last() =~= a) by {
        assert forall|i: int| 0 <= i < a.len() implies b.drop_last()[i] == a[i] by {
            assert(all@[i]@ == more@[i]@);
        }
    }
    assert(b.last() == more@.last()@);
    if before@.len() > 0 || (all@.len() == 0 && more@.last()@.len() > 0) {
        assert(after@ =~= before@ + more@.last()@ + seq!['\n']);
    }
}

/// A number in decimal, as it is given out, has no leading zero, and reads back as itself.
pub proof fn law_numbers_are_written_in_decimal(i: i64, text: String, row: &str, n: Option<u64>)
    requires
        call_ensures(decimal_of, (i,), text),
        call_ensures(parse_natural, (row,), n),
        row@ == text@,
    ensures
        i >= 0 ==> n == Some(i as u64),
        i < 0 ==> n is None && text@[0] == '-',
        i >= 0 && text@.len() > 1 ==> text@[0] != '0',
{
    law_decimal_digits(i as int);
    if i >= 0 {
        law_decimal_reads_back(i as u64);
    } else {
        assert(without_plus(text@) == text@);
        assert(!is_digit(without_plus(text@)[0]));
    }
}

/// A text is read as a number digit by digit: a further digit makes it ten times as much and the
/// digit more, as long as a `u64` can hold that, and any other character makes it no number. A
/// plus sign may go before, and there must be a digit.
pub proof fn law_numbers_are_read_digit_by_digit(
    front: &str,
    whole: &str,
    c: char,
    before: Option<u64>,
    after: Option<u64>,
)
    requires
        call_ensures(parse_natural, (front,), before),
        call_ensures(parse_natural, (whole,), after),
        whole@ == front@.push(c),
    ensures
        front@.len() == 0 || front@ == seq!['+'] ==> before is None,
        c < '0' || '9' < c ==> after is None,
        (front@.len() == 0 || front@ == seq!['+']) && '0' <= c <= '9' ==> after == Some(
            (c as int - 48) as u64,
        ),
        before matches Some(n) ==> '0' <= c <= '9' ==> {
            let value = 10 * n + (c as int - 48);
            &&& value <= u64::MAX ==> after == Some(value as u64)
            &&& value > u64::MAX ==> after is None
        },
        front@.len() > 0 && front@ != seq!['+'] && before is None ==> after is None,
{
    let a = without_plus(front@);
    let b = without_plus(whole@);
    if front@.len() == 0 {
        assert(whole@ =~= seq![c]);
        if c == '+' {
            assert(b.len() == 0);
        } else {
            assert(b =~= seq![c]);
            assert(b.drop_last() =~= Seq::<char>::empty());
            assert(digits_value(Seq::<char>::empty()) == 0);
            assert(b[0] == c);
        }
    } else {
        assert(b =~= a.push(c));
        assert(b.drop_last() =~= a);
        assert(b[b.len() - 1] == c);
        if front@ == seq!['+'] {
            assert(a.len() == 0);
            assert(digits_value(a) == 0);
        } else if front@.len() == 1 && front@[0] == '+' {
            assert(front@ =~= seq!['+']);
        }
        assert(forall|i: int| #![trigger a[i]] 0 <= i < a.len() ==> b[i] == a[i]);
        if before is None && a.len() > 0 {
            if forall|i: int| #![trigger b[i]] 0 <= i < b.len() ==> is_digit(b[i]) {
                assert forall|i: int| #![trigger a[i]] 0 <= i < a.len() implies is_digit(a[i]) by {
                    assert(b[i] == a[i]);
                }
            }
        } else if before is Some {
            assert forall|i: int| #![trigger b[i]] 0 <= i < b.len() && is_digit(c) implies is_digit(
                b[i],
            ) by {
                if i < a.len() {
                    assert(b[i] == a[i]);
                }
            }
        }
    }
}

} // verus!
