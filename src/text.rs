use vstd::prelude::*;

verus! {

/// The decimal digit for `d < 10`.
pub open spec fn digit(d: nat) -> char {
    ((d + 48) as u8) as char
}

/// The decimal representation of `n`, most significant digit first.
pub open spec fn decimal(n: nat) -> Seq<char>
    decreases n,
{
    if n < 10 {
        seq![digit(n)]
    } else {
        decimal(n / 10).push(digit(n % 10))
    }
}

/// `s` padded on the left with `fill` up to `width` characters.
pub open spec fn pad_left(s: Seq<char>, width: nat, fill: char) -> Seq<char> {
    if s.len() >= width {
        s
    } else {
        Seq::new((width - s.len()) as nat, |i: int| fill) + s
    }
}

/// Relies on `FromIterator<char>` for `String`: the string holds the given
/// characters, in order.
#[verifier::external_body]
pub(crate) fn string_of(chars: &Vec<char>) -> (r: String)
    ensures
        r@ == chars@,
{
    chars.iter().collect()
}

/// The decimal digits of `n`, padded on the left with `fill` up to `width`.
pub fn decimal_padded(n: usize, width: usize, fill: char) -> (r: Vec<char>)
    ensures
        r@ == pad_left(decimal(n as nat), width as nat, fill),
{
    let mut acc: Vec<char> = Vec::new();
    let mut m: usize = n;
    while m >= 10
        invariant
            decimal(n as nat) == decimal(m as nat) + acc@,
        decreases m,
    {
        let ghost acc0 = acc@;
        let d = (m % 10) as u8;
        acc.insert(0, (d + 48) as char);
        assert(acc@ =~= seq![digit((m % 10) as nat)] + acc0);
        assert(decimal(m as nat) == decimal((m / 10) as nat).push(digit((m % 10) as nat)));
        assert(decimal((m / 10) as nat).push(digit((m % 10) as nat)) + acc0 =~= decimal((m / 10) as nat) + acc@);
        m = m / 10;
    }
    let ghost acc0 = acc@;
    acc.insert(0, ((m as u8) + 48) as char);
    assert(acc@ =~= decimal(m as nat) + acc0);
    while acc.len() < width
        invariant
            pad_left(decimal(n as nat), width as nat, fill) == pad_left(acc@, width as nat, fill),
        decreases width - acc.len(),
    {
        let ghost acc0 = acc@;
        acc.insert(0, fill);
        assert(pad_left(acc@, width as nat, fill) =~= pad_left(acc0, width as nat, fill));
    }
    acc
}

} // verus!
