//! Short human-readable text for an elapsed time.
use vstd::prelude::*;
use vstd::string::*;
use core::time::Duration;

verus! {

/// Relies on `Duration::as_secs`: the whole seconds.
pub assume_specification[ core::time::Duration::as_secs ](d: &Duration) -> u64;

/// Relies on `Duration::subsec_millis`: the whole milliseconds of the
/// fractional part, which its documentation bounds below one second.
pub assume_specification[ core::time::Duration::subsec_millis ](d: &Duration) -> (r: u32)
    ensures
        r < 1000,
;

/// The decimal digit `d`.
pub open spec fn digit_char(d: int) -> char {
    if d == 0 {
        '0'
    } else if d == 1 {
        '1'
    } else if d == 2 {
        '2'
    } else if d == 3 {
        '3'
    } else if d == 4 {
        '4'
    } else if d == 5 {
        '5'
    } else if d == 6 {
        '6'
    } else if d == 7 {
        '7'
    } else if d == 8 {
        '8'
    } else {
        '9'
    }
}

/// `n` written in decimal, without leading zeros.
pub open spec fn decimal(n: nat) -> Seq<char>
    decreases n,
{
    if n < 10 {
        seq![digit_char(n as int)]
    } else {
        decimal(n / 10).push(digit_char((n % 10) as int))
    }
}

/// The leading decimal digit of `n`.
pub open spec fn leading_digit(n: nat) -> nat
    decreases n,
{
    if n < 10 {
        n
    } else {
        leading_digit(n / 10)
    }
}

/// An elapsed time: below one second as whole milliseconds (`"250ms"`),
/// else as seconds with the first digit of the milliseconds (`"3.2s"`).
pub open spec fn elapsed_text(secs: nat, ms: nat) -> Seq<char> {
    if secs < 1 {
        decimal(ms) + seq!['m', 's']
    } else {
        decimal(secs) + seq!['.', decimal(ms)[0], 's']
    }
}

proof fn lemma_decimal_first(n: nat)
    ensures
        decimal(n).len() > 0,
        decimal(n)[0] == digit_char(leading_digit(n) as int),
    decreases n,
{
    if n >= 10 {
        lemma_decimal_first(n / 10);
    }
}

fn digit_str(d: u64) -> (r: &'static str)
    requires
        d < 10,
    ensures
        r@ == seq![digit_char(d as int)],
{
    proof {
        reveal_strlit("0");
        reveal_strlit("1");
        reveal_strlit("2");
        reveal_strlit("3");
        reveal_strlit("4");
        reveal_strlit("5");
        reveal_strlit("6");
        reveal_strlit("7");
        reveal_strlit("8");
        reveal_strlit("9");
    }
    if d == 0 {
        "0"
    } else if d == 1 {
        "1"
    } else if d == 2 {
        "2"
    } else if d == 3 {
        "3"
    } else if d == 4 {
        "4"
    } else if d == 5 {
        "5"
    } else if d == 6 {
        "6"
    } else if d == 7 {
        "7"
    } else if d == 8 {
        "8"
    } else {
        "9"
    }
}

fn push_decimal(s: &mut String, n: u64)
    ensures
        final(s)@ == old(s)@ + decimal(n as nat),
    decreases n,
{
    if n >= 10 {
        push_decimal(s, n / 10);
    }
    s.append(digit_str(n % 10));
    proof {
        if n >= 10 {
            assert(decimal(n as nat) == decimal((n / 10) as nat).push(digit_char((n % 10) as int)));
        }
    }
    assert(s@ =~= old(s)@ + decimal(n as nat));
}

/// The leading decimal digit of `n`.
fn first_digit(n: u64) -> (r: u64)
    ensures
        r == leading_digit(n as nat),
        r < 10,
    decreases n,
{
    if n < 10 {
        n
    } else {
        first_digit(n / 10)
    }
}

/// Formats whole seconds and milliseconds as an elapsed time.
pub fn format_elapsed(secs: u64, ms: u32) -> (r: String)
    ensures
        r@ == elapsed_text(secs as nat, ms as nat),
{
    let mut s = String::new();
    if secs < 1 {
        push_decimal(&mut s, ms as u64);
        proof {
            reveal_strlit("ms");
        }
        s.append("ms");
    } else {
        push_decimal(&mut s, secs);
        proof {
            reveal_strlit(".");
            reveal_strlit("s");
            lemma_decimal_first(ms as nat);
        }
        s.append(".");
        s.append(digit_str(first_digit(ms as u64)));
        s.append("s");
    }
    assert(s@ =~= elapsed_text(secs as nat, ms as nat));
    s
}

/// Short text for an elapsed time.
pub trait DurationExt {
    fn display(self) -> (r: String)
        ensures
            exists|secs: nat, ms: nat| ms < 1000 && r@ == elapsed_text(secs, ms),
    ;
}

impl DurationExt for Duration {
    fn display(self) -> (r: String) {
        let secs = self.as_secs();
        let ms = self.subsec_millis();
        format_elapsed(secs, ms)
    }
}

} // verus!
