use vstd::prelude::*;

verus! {

/// Appends `c` with `String::push`. Claimed: the characters become the old
/// ones followed by `c`.
#[verifier::external_body]
pub(crate) fn push_char(s: &mut String, c: char)
    ensures
        final(s)@ == old(s)@.push(c),
{
    s.push(c);
}

/// The decimal digit character for `d` (0 to 9).
pub open spec fn spec_digit(d: int) -> char {
    if d == 0 { '0' }
    else if d == 1 { '1' }
    else if d == 2 { '2' }
    else if d == 3 { '3' }
    else if d == 4 { '4' }
    else if d == 5 { '5' }
    else if d == 6 { '6' }
    else if d == 7 { '7' }
    else if d == 8 { '8' }
    else { '9' }
}

/// Decimal notation of `n`, without leading zeros.
pub open spec fn spec_decimal(n: nat) -> Seq<char>
    decreases n,
{
    if n < 10 {
        seq![spec_digit(n as int)]
    } else {
        spec_decimal(n / 10).push(spec_digit((n % 10) as int))
    }
}

/// The value of a digit character.
pub open spec fn spec_digit_value(c: char) -> int {
    (c as int) - ('0' as int)
}

/// The number that a string of decimal digits denotes.
pub open spec fn spec_digits_value(s: Seq<char>) -> int
    decreases s.len(),
{
    if s.len() == 0 {
        0
    } else {
        spec_digits_value(s.drop_last()) * 10 + spec_digit_value(s.last())
    }
}

/// Every character is a decimal digit.
pub open spec fn spec_all_digits(s: Seq<char>) -> bool {
    forall|i: int| 0 <= i < s.len() ==> '0' <= #[trigger] s[i] <= '9'
}

fn digit_char(d: u64) -> (c: char)
    requires
        d < 10,
    ensures
        c == spec_digit(d as int),
{
    if d == 0 { '0' }
    else if d == 1 { '1' }
    else if d == 2 { '2' }
    else if d == 3 { '3' }
    else if d == 4 { '4' }
    else if d == 5 { '5' }
    else if d == 6 { '6' }
    else if d == 7 { '7' }
    else if d == 8 { '8' }
    else { '9' }
}

/// Appends the decimal notation of `n` to `out`.
fn push_decimal(out: &mut String, n: u64)
    ensures
        final(out)@ == old(out)@ + spec_decimal(n as nat),
    decreases n,
{
    if n < 10 {
        push_char(out, digit_char(n));
        assert(old(out)@.push(spec_digit(n as int)) =~= old(out)@ + seq![spec_digit(n as int)]);
    } else {
        push_decimal(out, n / 10);
        push_char(out, digit_char(n % 10));
        assert(old(out)@ + spec_decimal((n / 10) as nat).push(spec_digit((n % 10) as int))
            =~= (old(out)@ + spec_decimal((n / 10) as nat)).push(spec_digit((n % 10) as int)));
    }
}

/// Decimal notation of `n`, as `n.to_string()` writes it.
pub fn decimal_string(n: u64) -> (r: String)
    ensures
        r@ == spec_decimal(n as nat),
{
    let mut out = String::new();
    push_decimal(&mut out, n);
    assert(Seq::<char>::empty() + spec_decimal(n as nat) =~= spec_decimal(n as nat));
    out
}

/// `s` left-padded with zeros to at least `width` characters.
pub open spec fn spec_zero_pad(s: Seq<char>, width: nat) -> Seq<char> {
    if s.len() < width {
        Seq::new((width - s.len()) as nat, |i: int| '0') + s
    } else {
        s
    }
}

/// Name of the PNG file of frame `frame`: the frame number with at least
/// five digits, then `.png` (`format!("{frame:05}.png")`).
pub open spec fn spec_frame_file_name(frame: nat) -> Seq<char> {
    spec_zero_pad(spec_decimal(frame), 5) + seq!['.', 'p', 'n', 'g']
}

/// The file name of frame `frame` in the frame directory.
pub fn frame_file_name(frame: usize) -> (r: String)
    ensures
        r@ == spec_frame_file_name(frame as nat),
{
    let digits = decimal_string(frame as u64);
    let mut out = String::new();
    let len = digits.as_str().unicode_len();
    let mut pad: usize = len;
    while pad < 5
        invariant
            len == spec_decimal(frame as nat).len(),
            len <= pad <= 5 || (len > 5 && pad == len),
            out@ == Seq::new((pad - len) as nat, |i: int| '0'),
        decreases 5 - pad,
    {
        push_char(&mut out, '0');
        assert(out@ =~= Seq::new((pad + 1 - len) as nat, |i: int| '0'));
        pad = pad + 1;
    }
    out.append(digits.as_str());
    out.append(".png");
    proof {
        reveal_strlit(".png");
    }
    assert(out@ =~= spec_frame_file_name(frame as nat));
    out
}

/// Decimal notation is all digits and denotes its number.
pub proof fn lemma_decimal_digits(n: nat)
    ensures
        spec_all_digits(spec_decimal(n)),
        spec_digits_value(spec_decimal(n)) == n,
        spec_decimal(n).len() >= 1,
        n > 0 ==> spec_decimal(n)[0] != '0',
        n < 10 ==> spec_decimal(n).len() == 1,
        n < 100 ==> spec_decimal(n).len() <= 2,
        n < 1000 ==> spec_decimal(n).len() <= 3,
        n < 10000 ==> spec_decimal(n).len() <= 4,
        n < 100000 ==> spec_decimal(n).len() <= 5,
    decreases n,
{
    let d = spec_decimal(n);
    lemma_digit_value((n % 10) as int);
    if n < 10 {
        lemma_digit_value(n as int);
        assert(d.drop_last() =~= Seq::<char>::empty());
        assert(d.last() == spec_digit(n as int));
        assert(spec_digits_value(d) == spec_digits_value(d.drop_last()) * 10 + spec_digit_value(d.last()));
    } else {
        lemma_decimal_digits(n / 10);
        assert(d.drop_last() =~= spec_decimal(n / 10));
        assert(d[0] == spec_decimal(n / 10)[0]);
        assert(d.last() == spec_digit((n % 10) as int));
        assert(n == (n / 10) * 10 + n % 10);
        assert(spec_digits_value(d) == spec_digits_value(d.drop_last()) * 10 + spec_digit_value(d.last()));
        assert forall|i: int| 0 <= i < d.len() implies '0' <= #[trigger] d[i] <= '9' by {
            if i < d.len() - 1 {
                assert(d[i] == spec_decimal(n / 10)[i]);
            }
        }
    }
}

proof fn lemma_digit_value(d: int)
    requires
        0 <= d < 10,
    ensures
        spec_digit_value(spec_digit(d)) == d,
        '0' <= spec_digit(d) <= '9',
{
}

proof fn lemma_leading_zeros(k: nat, s: Seq<char>)
    ensures
        spec_digits_value(Seq::new(k, |i: int| '0') + s) == spec_digits_value(s),
    decreases s.len(),
{
    let z = Seq::new(k, |i: int| '0');
    if s.len() == 0 {
        lemma_zeros_value(k);
        assert(z + s =~= z);
    } else {
        lemma_leading_zeros(k, s.drop_last());
        assert((z + s).drop_last() =~= z + s.drop_last());
    }
}

proof fn lemma_zeros_value(k: nat)
    ensures
        spec_digits_value(Seq::new(k, |i: int| '0')) == 0,
    decreases k,
{
    if k > 0 {
        lemma_zeros_value((k - 1) as nat);
        assert(Seq::new(k, |i: int| '0').drop_last() =~= Seq::new((k - 1) as nat, |i: int| '0'));
    }
}

/// Law: the frame files match the pattern `%05d.png` that the encoders are
/// given: below 100000, the name of frame `n` is five decimal digits whose
/// value is `n`, followed by `.png`.
pub proof fn lemma_frame_file_name_pattern(frame: nat)
    requires
        frame < 100000,
    ensures
        spec_frame_file_name(frame).len() == 9,
        spec_frame_file_name(frame).subrange(5, 9) == seq!['.', 'p', 'n', 'g'],
        spec_all_digits(spec_frame_file_name(frame).subrange(0, 5)),
        spec_digits_value(spec_frame_file_name(frame).subrange(0, 5)) == frame,
{
    lemma_decimal_digits(frame);
    let d = spec_decimal(frame);
    let padded = spec_zero_pad(d, 5);
    let name = spec_frame_file_name(frame);
    assert(name.subrange(0, 5) =~= padded);
    assert(name.subrange(5, 9) =~= seq!['.', 'p', 'n', 'g']);
    if d.len() < 5 {
        lemma_leading_zeros((5 - d.len()) as nat, d);
        let z = Seq::new((5 - d.len()) as nat, |i: int| '0');
        assert forall|i: int| 0 <= i < padded.len() implies '0' <= #[trigger] padded[i] <= '9' by {
            if i >= z.len() {
                assert(padded[i] == d[i - z.len()]);
            }
        }
    }
}

} // verus!
