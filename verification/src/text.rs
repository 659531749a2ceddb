//! Numbers as text.

use vstd::prelude::*;

verus! {

/// The digit of value `d`, in lower case above nine.
pub open spec fn digit(d: nat) -> char {
    "0123456789abcdef"@[d as int]
}

/// The decimal notation of `n`, without leading zeros.
pub open spec fn decimal(n: nat) -> Seq<char>
    decreases n,
{
    if n < 10 {
        seq![digit(n)]
    } else {
        decimal(n / 10).push(digit(n % 10))
    }
}

/// The `width` low hexadecimal digits of `n`, leading zeros kept.
pub open spec fn hex(n: nat, width: nat) -> Seq<char>
    decreases width,
{
    if width == 0 {
        Seq::empty()
    } else {
        hex(n / 16, (width - 1) as nat).push(digit(n % 16))
    }
}

fn push_digit(out: &mut String, d: usize)
    requires
        d < 16,
    ensures
        final(out)@ == old(out)@.push(digit(d as nat)),
{
    let ghost before = out@;
    let digits = "0123456789abcdef";
    proof {
        reveal_strlit("0123456789abcdef");
        assert(digits.is_ascii());
    }
    let one = digits.substring_ascii(d, d + 1);
    out.append(one);
    assert(out@ =~= before.push(digit(d as nat)));
}

/// Appends the decimal notation of `n`.
pub fn push_decimal(out: &mut String, n: u64)
    ensures
        final(out)@ == old(out)@ + decimal(n as nat),
    decreases n,
{
    let ghost before = out@;
    if n >= 10 {
        push_decimal(out, n / 10);
    }
    push_digit(out, (n % 10) as usize);
    assert(out@ =~= before + decimal(n as nat));
}

/// Appends the `width` low hexadecimal digits of `n`.
pub fn push_hex(out: &mut String, n: u128, width: usize)
    ensures
        final(out)@ == old(out)@ + hex(n as nat, width as nat),
    decreases width,
{
    let ghost before = out@;
    if width > 0 {
        push_hex(out, n / 16, width - 1);
        push_digit(out, (n % 16) as usize);
    }
    assert(out@ =~= before + hex(n as nat, width as nat));
}

/// The characters of a text.
pub fn characters(text: &str) -> (list: Vec<char>)
    ensures
        list@ == text@,
{
    let n: usize = text.unicode_len();
    let mut list: Vec<char> = Vec::new();
    for c in it: text.chars()
        invariant
            it.seq() == text@,
            list@ == text@.take(it.index()),
    {
        list.push(c);
        assert(list@ =~= text@.take(it.index() + 1));
    }
    assert(text@.take(n as int) =~= text@);
    list
}

/// Whether two texts are the same.
pub fn text_equal(a: &str, b: &str) -> (equal: bool)
    ensures
        equal == (a@ == b@),
{
    let left = characters(a);
    let right = characters(b);
    if left.len() != right.len() {
        return false;
    }
    let mut i: usize = 0;
    while i < left.len()
        invariant
            i <= left@.len(),
            left@.len() == right@.len(),
            left@ == a@,
            right@ == b@,
            left@.take(i as int) == right@.take(i as int),
        decreases left@.len() - i,
    {
        if left[i] != right[i] {
            return false;
        }
        i = i + 1;
        assert(left@.take(i as int) =~= right@.take(i as int)) by {
            assert(left@.take(i as int) =~= left@.take(i - 1).push(left@[i - 1]));
            assert(right@.take(i as int) =~= right@.take(i - 1).push(right@[i - 1]));
        }
    }
    assert(left@.take(i as int) =~= left@);
    assert(right@.take(i as int) =~= right@);
    true
}

/// Whether `part` stands somewhere in `text`.
pub open spec fn occurs_in(part: Seq<char>, text: Seq<char>) -> bool {
    exists|i: int| #[trigger] occurs_at(part, text, i)
}

/// Whether `part` stands in `text` at `i`.
pub open spec fn occurs_at(part: Seq<char>, text: Seq<char>, i: int) -> bool {
    0 <= i && i + part.len() <= text.len() && text.subrange(i, i + part.len()) == part
}

fn stands_at(part: &Vec<char>, text: &Vec<char>, at: usize) -> (stands: bool)
    requires
        at + part@.len() <= text@.len(),
    ensures
        stands == occurs_at(part@, text@, at as int),
{
    let end: usize = text.len();
    let mut i: usize = 0;
    while i < part.len()
        invariant
            at + part@.len() <= end,
            end == text@.len(),
            i <= part@.len(),
            forall|j: int| 0 <= j < i ==> text@[at + j] == #[trigger] part@[j],
        decreases part@.len() - i,
    {
        if text[at + i] != part[i] {
            assert(text@.subrange(at as int, at + part@.len())[i as int] != part@[i as int]);
            return false;
        }
        i = i + 1;
    }
    assert(text@.subrange(at as int, at + part@.len()) =~= part@);
    true
}

/// Whether `part` stands somewhere in `text`.
pub fn text_contains(text: &str, part: &str) -> (found: bool)
    ensures
        found == occurs_in(part@, text@),
{
    let whole = characters(text);
    let piece = characters(part);
    if piece.len() > whole.len() {
        return false;
    }
    let last: usize = whole.len() - piece.len();
    let mut at: usize = 0;
    while at <= last
        invariant
            whole@ == text@,
            piece@ == part@,
            last + piece@.len() == whole@.len(),
            at <= last + 1,
            forall|i: int| 0 <= i < at ==> !#[trigger] occurs_at(part@, text@, i),
        decreases last + 1 - at,
    {
        if stands_at(&piece, &whole, at) {
            return true;
        }
        if at == last {
            assert forall|i: int| !#[trigger] occurs_at(part@, text@, i) by {
                if i < at {
                }
            }
            return false;
        }
        at = at + 1;
    }
    false
}

/// Whether a text comes before another: the first character in which they differ decides,
/// and a text comes before a longer one that begins with it.
pub open spec fn text_before(a: Seq<char>, b: Seq<char>) -> bool
    decreases a.len(),
{
    if b.len() == 0 {
        false
    } else if a.len() == 0 {
        true
    } else if a[0] != b[0] {
        (a[0] as int) < (b[0] as int)
    } else {
        text_before(a.skip(1), b.skip(1))
    }
}

fn char_number(c: char) -> (n: u32)
    ensures
        n == c as int,
{
    c as u32
}

/// Whether a text comes before another.
pub fn text_is_before(a: &str, b: &str) -> (before: bool)
    ensures
        before == text_before(a@, b@),
{
    let left = characters(a);
    let right = characters(b);
    let mut i: usize = 0;
    assert(left@.skip(0) =~= left@);
    assert(right@.skip(0) =~= right@);
    while i < left.len() && i < right.len()
        invariant
            left@ == a@,
            right@ == b@,
            i <= left@.len(),
            i <= right@.len(),
            text_before(a@, b@) == text_before(a@.skip(i as int), b@.skip(i as int)),
        decreases left@.len() - i,
    {
        let ghost x = a@.skip(i as int);
        let ghost y = b@.skip(i as int);
        assert(x[0] == left@[i as int]);
        assert(y[0] == right@[i as int]);
        if left[i] != right[i] {
            return char_number(left[i]) < char_number(right[i]);
        }
        assert(x.skip(1) =~= a@.skip(i + 1));
        assert(y.skip(1) =~= b@.skip(i + 1));
        i = i + 1;
    }
    i < right.len()
}

/// The order of texts is strict and total.
pub proof fn text_order_is_total(a: Seq<char>, b: Seq<char>)
    ensures
        a != b ==> (text_before(a, b) <==> !text_before(b, a)),
        !text_before(a, a),
    decreases a.len(),
{
    if a.len() > 0 {
        text_order_is_total(a.skip(1), a.skip(1));
    }
    if a.len() > 0 && b.len() > 0 && a[0] == b[0] {
        text_order_is_total(a.skip(1), b.skip(1));
        if a.skip(1) == b.skip(1) {
            assert(a =~= seq![a[0]] + a.skip(1));
            assert(b =~= seq![b[0]] + b.skip(1));
        }
    }
    if a.len() == 0 && b.len() == 0 {
        assert(a =~= b);
    }
    if a.len() > 0 && b.len() > 0 && a[0] != b[0] {
        assert(text_before(a, b) == ((a[0] as int) < (b[0] as int)));
        assert(text_before(b, a) == ((b[0] as int) < (a[0] as int)));
    }
}

/// The order of texts is transitive.
pub proof fn text_order_is_transitive(a: Seq<char>, b: Seq<char>, c: Seq<char>)
    requires
        text_before(a, b),
        text_before(b, c),
    ensures
        text_before(a, c),
    decreases a.len(),
{
    if a.len() > 0 && a[0] == b[0] && b[0] == c[0] {
        text_order_is_transitive(a.skip(1), b.skip(1), c.skip(1));
    }
}

/// The number that a text of digits stands for, to the given base.
pub open spec fn number_of(text: Seq<char>, base: nat) -> nat
    decreases text.len(),
{
    if text.len() == 0 {
        0
    } else {
        let c = text.last() as nat;
        number_of(text.drop_last(), base) * base + (if c >= 97 {
            (c - 87) as nat
        } else {
            (c - 48) as nat
        })
    }
}

/// The digits are those from zero to nine, and then those from a to f.
pub proof fn digits_are_in_order(d: nat)
    requires
        d < 16,
    ensures
        d < 10 ==> digit(d) as nat == 48 + d,
        d >= 10 ==> digit(d) as nat == 87 + d,
{
    reveal_strlit("0123456789abcdef");
}

/// The decimal notation of a number stands for the number, and begins with no needless zero.
pub proof fn decimal_stands_for_its_number(n: nat)
    ensures
        number_of(decimal(n), 10) == n,
        decimal(n).len() > 0,
        n > 0 ==> decimal(n)[0] as nat != 48,
        n == 0 ==> decimal(n).len() == 1,
    decreases n,
{
    digits_are_in_order(n % 10);
    if n >= 10 {
        decimal_stands_for_its_number(n / 10);
        assert(decimal(n).drop_last() =~= decimal(n / 10));
        assert(decimal(n)[0] == decimal(n / 10)[0]);
    } else {
        assert(decimal(n).drop_last() =~= Seq::empty());
        assert(number_of(decimal(n).drop_last(), 10) == 0);
    }
}

/// The hexadecimal notation has as many digits as asked for, and stands for the number where it
/// fits.
pub proof fn hex_stands_for_its_number(n: nat, width: nat)
    ensures
        hex(n, width).len() == width,
        n < vstd::arithmetic::power::pow(16, width) ==> number_of(hex(n, width), 16) == n,
    decreases width,
{
    reveal(vstd::arithmetic::power::pow);
    if width > 0 {
        let less = (width - 1) as nat;
        hex_stands_for_its_number(n / 16, less);
        digits_are_in_order(n % 16);
        assert(hex(n, width).drop_last() =~= hex(n / 16, less));
        assert(vstd::arithmetic::power::pow(16, width) == 16 * vstd::arithmetic::power::pow(
            16,
            less,
        ));
    }
}

/// Different numbers that fit have different notations.
pub proof fn hex_is_injective(a: nat, b: nat, width: nat)
    requires
        a < vstd::arithmetic::power::pow(16, width),
        b < vstd::arithmetic::power::pow(16, width),
        hex(a, width) == hex(b, width),
    ensures
        a == b,
{
    hex_stands_for_its_number(a, width);
    hex_stands_for_its_number(b, width);
}

/// Different numbers have different decimal notations.
pub proof fn decimal_is_injective(a: nat, b: nat)
    requires
        decimal(a) == decimal(b),
    ensures
        a == b,
{
    decimal_stands_for_its_number(a);
    decimal_stands_for_its_number(b);
}

/// Texts are ordered by the first character in which they differ, and a text comes before those
/// that it begins.
pub proof fn first_difference_decides(common: Seq<char>, a: Seq<char>, b: Seq<char>)
    ensures
        a.len() > 0 && b.len() > 0 && (a[0] as int) < (b[0] as int) ==> text_before(
            common + a,
            common + b,
        ),
        b.len() > 0 ==> text_before(common, common + b),
        !text_before(common + b, common),
    decreases common.len(),
{
    if common.len() > 0 {
        first_difference_decides(common.skip(1), a, b);
        assert((common + a).skip(1) =~= common.skip(1) + a);
        assert((common + b).skip(1) =~= common.skip(1) + b);
    } else {
        assert(common + a =~= a);
        assert(common + b =~= b);
    }
}

/// A number of sixteen bytes fits in thirty-two hexadecimal digits.
pub proof fn sixteen_bytes_fit(n: u128)
    ensures
        (n as nat) < vstd::arithmetic::power::pow(16, 32),
{
    vstd::arithmetic::power2::lemma2_to64();
    vstd::arithmetic::power::lemma_pow_multiplies(2, 4, 32);
    vstd::arithmetic::power2::lemma_pow2(128);
    vstd::arithmetic::power2::lemma_pow2(4);
    vstd::arithmetic::power2::lemma_pow2_adds(64, 64);
    assert(0x1_0000_0000_0000_0000nat * 0x1_0000_0000_0000_0000nat
        == 0x1_0000_0000_0000_0000_0000_0000_0000_0000nat) by (nonlinear_arith);
}

/// A number of eight bytes fits in sixteen hexadecimal digits.
pub proof fn eight_bytes_fit(n: u64)
    ensures
        (n as nat) < vstd::arithmetic::power::pow(16, 16),
{
    vstd::arithmetic::power2::lemma2_to64();
    vstd::arithmetic::power::lemma_pow_multiplies(2, 4, 16);
    vstd::arithmetic::power2::lemma_pow2(64);
    vstd::arithmetic::power2::lemma_pow2(4);
}

/// A text occurs in another exactly where the other is made up of something, the text, and
/// something else.
pub proof fn part_stands_between_the_rest(before: Seq<char>, part: Seq<char>, after: Seq<char>, text: Seq<char>, i: int)
    ensures
        occurs_at(part, before + part + after, before.len() as int),
        occurs_in(part, before + part + after),
        occurs_at(part, text, i) ==> text == text.take(i) + part + text.skip(i + part.len()),
        occurs_in(part, text) ==> part.len() <= text.len(),
{
    let whole = before + part + after;
    assert(whole.subrange(before.len() as int, (before.len() + part.len()) as int) =~= part);
    assert(occurs_at(part, whole, before.len() as int));
    if occurs_at(part, text, i) {
        assert(text =~= text.take(i) + text.subrange(i, i + part.len()) + text.skip(i + part.len()));
    }
    if occurs_in(part, text) {
        let k = choose|k: int| #[trigger] occurs_at(part, text, k);
        assert(occurs_at(part, text, k));
    }
}

} // verus!
