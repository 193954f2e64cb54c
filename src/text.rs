use vstd::prelude::*;
use vstd::std_specs::iter::IteratorSpec;

verus! {

/// A decimal digit.
pub open spec fn is_digit(c: char) -> bool {
    '0' <= c && c <= '9'
}

/// Value of a digit, assuming `is_digit(c)`.
pub open spec fn digit_value(c: char) -> nat {
    ((c as u32) - ('0' as u32)) as nat
}

/// Decimal value of a sequence of digits, most significant first.
pub open spec fn decimal_value(s: Seq<char>) -> nat
    decreases s.len(),
{
    if s.len() == 0 {
        0
    } else {
        decimal_value(s.drop_last()) * 10 + digit_value(s.last())
    }
}

/// Every character of `s` is a decimal digit.
pub open spec fn all_digits(s: Seq<char>) -> bool {
    forall|i: int| 0 <= i < s.len() ==> is_digit(#[trigger] s[i])
}

/// Relies on `String::push`, which appends one character to the end of the string.
pub assume_specification[ String::push ](s: &mut String, ch: char)
    ensures
        final(s)@ == old(s)@.push(ch),
;

/// The characters of `s`, in order.
pub fn chars_of(s: &str) -> (r: Vec<char>)
    ensures
        r@ == s@,
{
    let mut it = s.chars();
    let mut out: Vec<char> = Vec::new();
    proof {
        broadcast use vstd::string::group_string_axioms;
    }
    loop
        invariant
            it.obeys_prophetic_iter_laws(),
            out@ + it.remaining() == s@,
            it.decrease() is Some,
        ensures
            out@ == s@,
        decreases it.decrease()->0,
    {
        match it.next() {
            Some(c) => {
                out.push(c);
            },
            None => {
                break;
            },
        }
    }
    out
}

/// A `String` holding `chars[from..to]`.
pub fn string_of_range(chars: &Vec<char>, from: usize, to: usize) -> (r: String)
    requires
        from <= to <= chars@.len(),
    ensures
        r@ == chars@.subrange(from as int, to as int),
{
    let mut out = String::new();
    let mut i = from;
    while i < to
        invariant
            from <= i <= to <= chars@.len(),
            out@ == chars@.subrange(from as int, i as int),
        decreases to - i,
    {
        out.push(chars[i]);
        assert(chars@.subrange(from as int, i + 1) == chars@.subrange(from as int, i as int).push(
            chars@[i as int],
        ));
        i = i + 1;
    }
    out
}

/// Value of one digit character.
pub fn char_digit(c: char) -> (r: u32)
    requires
        is_digit(c),
    ensures
        r as nat == digit_value(c),
        r < 10,
{
    (c as u32) - ('0' as u32)
}

} // verus!
