use vstd::prelude::*;
use vstd::string::StringExecFns;

verus! {

/// The character of a decimal digit.
pub open spec fn digit_char(d: nat) -> char {
    seq!['0', '1', '2', '3', '4', '5', '6', '7', '8', '9'][d as int]
}

/// The decimal digits of `n`, most significant first, with no leading zeros.
pub open spec fn decimal(n: nat) -> Seq<char>
    decreases n,
{
    if n < 10 {
        seq![digit_char(n)]
    } else {
        decimal(n / 10).push(digit_char(n % 10))
    }
}

/// `digits` right-aligned in a field of width two.
pub open spec fn right_align_two(digits: Seq<char>) -> Seq<char> {
    if digits.len() < 2 {
        seq![' '] + digits
    } else {
        digits
    }
}

/// The outcome word, left-aligned in a field of width nine.
pub open spec fn outcome_label(stored: bool) -> Seq<char> {
    if stored {
        seq!['S', 't', 'o', 'r', 'e', 'd', ' ', ' ', ' ']
    } else {
        seq!['D', 'i', 's', 'c', 'a', 'r', 'd', 'e', 'd']
    }
}

/// The audit line for one decision: outcome, stack size in parentheses, item name.
pub open spec fn log_line(stored: bool, size: nat, name: Seq<char>) -> Seq<char> {
    outcome_label(stored) + seq![' ', '('] + right_align_two(decimal(size)) + seq![')', ' ']
        + name
}

fn push_digit(out: &mut String, d: u64)
    requires
        d < 10,
    ensures
        final(out)@ == old(out)@.push(digit_char(d as nat)),
{
    let t: &str = match d {
        0 => "0",
        1 => "1",
        2 => "2",
        3 => "3",
        4 => "4",
        5 => "5",
        6 => "6",
        7 => "7",
        8 => "8",
        _ => "9",
    };
    proof {
        reveal_strlit("0");
        reveal_strlit("1");
        reveal_strlit("2");
        reveal_strlit("3");
        reveal_strlit("4");
        reveal_strlit("5");
        reveal_strlit("6");
        reveal_strlit("7");
        reveal_strlit("8");
        reveal_strlit("9");
    }
    out.append(t);
    assert(t@ =~= seq![digit_char(d as nat)]);
}

fn push_decimal(out: &mut String, n: u64)
    ensures
        final(out)@ == old(out)@ + decimal(n as nat),
    decreases n,
{
    if n >= 10 {
        push_decimal(out, n / 10);
        push_digit(out, n % 10);
        assert(final(out)@ =~= old(out)@ + decimal(n as nat));
    } else {
        push_digit(out, n);
        assert(final(out)@ =~= old(out)@ + decimal(n as nat));
    }
}

/// The number of decimal digits of `n` is one exactly when `n` is below ten.
proof fn lemma_decimal_len(n: nat)
    ensures
        decimal(n).len() >= 1,
        (decimal(n).len() < 2) == (n < 10),
    decreases n,
{
    if n >= 10 {
        lemma_decimal_len(n / 10);
    }
}

/// Renders the audit line for one stored or discarded stack.
pub fn format_entry(stored: bool, size: u64, name: &String) -> (r: String)
    ensures
        r@ == log_line(stored, size as nat, name@),
{
    let mut out = String::new();
    if stored {
        out.append("Stored   ");
    } else {
        out.append("Discarded");
    }
    out.append(" (");
    if size < 10 {
        out.append(" ");
    }
    push_decimal(&mut out, size);
    out.append(") ");
    out.append(name.as_str());
    proof {
        reveal_strlit("Stored   ");
        reveal_strlit("Discarded");
        reveal_strlit(" (");
        reveal_strlit(" ");
        reveal_strlit(") ");
        lemma_decimal_len(size as nat);
    }
    assert(out@ =~= log_line(stored, size as nat, name@));
    out
}

} // verus!
