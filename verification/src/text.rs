use vstd::prelude::*;

verus! {

/// The decimal digit of a number below ten.
pub open spec fn digit_char(d: int) -> char {
    if d == 0 {
        '0'
    } else if d == 1 {
        '1'
    } else if d == 2 {
        '2'
    } else if d == 3 {
        '3'
    } else if d == 4 {
        '4'
    } else if d == 5 {
        '5'
    } else if d == 6 {
        '6'
    } else if d == 7 {
        '7'
    } else if d == 8 {
        '8'
    } else {
        '9'
    }
}

/// The decimal text of a number, without leading zeros.
pub open spec fn decimal_text(n: nat) -> Seq<char>
    decreases n,
{
    if n < 10 {
        seq![digit_char(n as int)]
    } else {
        decimal_text(n / 10) + seq![digit_char((n % 10) as int)]
    }
}

/// The text of a truth value: `true` or `false`.
pub open spec fn bool_text(b: bool) -> Seq<char> {
    if b {
        "true"@
    } else {
        "false"@
    }
}

fn digit_str(d: u8) -> (s: &'static str)
    requires
        d < 10,
    ensures
        s@ == seq![digit_char(d as int)],
{
    proof {
        reveal_strlit("0");
        reveal_strlit("1");
        reveal_strlit("2");
        reveal_strlit("3");
        reveal_strlit("4");
        reveal_strlit("5");
        reveal_strlit("6");
        reveal_strlit("7");
        reveal_strlit("8");
        reveal_strlit("9");
    }
    if d == 0 {
        "0"
    } else if d == 1 {
        "1"
    } else if d == 2 {
        "2"
    } else if d == 3 {
        "3"
    } else if d == 4 {
        "4"
    } else if d == 5 {
        "5"
    } else if d == 6 {
        "6"
    } else if d == 7 {
        "7"
    } else if d == 8 {
        "8"
    } else {
        "9"
    }
}

/// The decimal text of a byte.
pub fn u8_to_string(n: u8) -> (s: String)
    ensures
        s@ == decimal_text(n as nat),
{
    let mut s = String::new();
    if n < 10 {
        s.append(digit_str(n));
        assert(s@ == decimal_text(n as nat));
    } else if n < 100 {
        let tens = n / 10;
        let ones = n % 10;
        s.append(digit_str(tens));
        s.append(digit_str(ones));
        assert(decimal_text(tens as nat) == seq![digit_char(tens as int)]);
        assert(decimal_text(n as nat) == decimal_text(tens as nat) + seq![digit_char(ones as int)]);
        assert(s@ == decimal_text(n as nat));
    } else {
        let hundreds = n / 100;
        let tens = (n / 10) % 10;
        let ones = n % 10;
        s.append(digit_str(hundreds));
        s.append(digit_str(tens));
        s.append(digit_str(ones));
        let upper = n / 10;
        assert(upper / 10 == hundreds);
        assert(upper % 10 == tens);
        assert(decimal_text(hundreds as nat) == seq![digit_char(hundreds as int)]);
        assert(decimal_text(upper as nat) == decimal_text(hundreds as nat) + seq![digit_char(tens as int)]);
        assert(decimal_text(n as nat) == decimal_text(upper as nat) + seq![digit_char(ones as int)]);
        assert(s@ == decimal_text(n as nat));
    }
    s
}

/// The text of a truth value.
pub fn bool_to_str(b: bool) -> (s: &'static str)
    ensures
        s@ == bool_text(b),
{
    if b {
        "true"
    } else {
        "false"
    }
}

} // verus!
