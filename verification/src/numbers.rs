//! Numbers in words: integers, sizes and shares, the latter two to one decimal place.

use vstd::prelude::*;

use crate::ipc::CpuPercent;
use crate::text::{chars_of, spaces, spaces_of};

verus! {

/// The number of bytes in a kibibyte.
pub const KIB: u64 = 0x400;

/// The number of bytes in a mebibyte.
pub const MIB: u64 = 0x10_0000;

/// The number of bytes in a gibibyte.
pub const GIB: u64 = 0x4000_0000;

/// The integer from which on not every integer is a double.
pub const DOUBLE_LIMIT: u64 = 0x20_0000_0000_0000;

/// The digit for a number below ten.
pub open spec fn digit(d: nat) -> char {
    if d == 0 {
        '0'
    } else if d == 1 {
        '1'
    } else if d == 2 {
        '2'
    } else if d == 3 {
        '3'
    } else if d == 4 {
        '4'
    } else if d == 5 {
        '5'
    } else if d == 6 {
        '6'
    } else if d == 7 {
        '7'
    } else if d == 8 {
        '8'
    } else {
        '9'
    }
}

/// The number in decimal digits.
pub open spec fn decimal(n: nat) -> Seq<char>
    decreases n,
{
    if n < 10 {
        seq![digit(n)]
    } else {
        decimal(n / 10).push(digit(n % 10))
    }
}

/// The integer in decimal digits, a negative one behind a minus sign.
pub open spec fn integer_text(n: int) -> Seq<char> {
    if n < 0 {
        "-"@ + decimal((-n) as nat)
    } else {
        decimal(n as nat)
    }
}

/// The integer nearest to `a / b`; of two that are equally near the even one.
pub open spec fn half_even(a: nat, b: nat) -> nat {
    let q = a / b;
    let r = a % b;
    if 2 * r < b || (2 * r == b && q % 2 == 0) {
        q
    } else {
        q + 1
    }
}

/// A number of tenths, with one decimal place.
pub open spec fn tenths_text(t: nat) -> Seq<char> {
    decimal(t / 10) + "."@ + seq![digit(t % 10)]
}

/// Two to the power of `k`.
pub open spec fn two_to(k: nat) -> nat
    decreases k,
{
    if k == 0 {
        1
    } else {
        2 * two_to((k - 1) as nat)
    }
}

/// How far apart doubles are near `n`, from `unit` on.
pub open spec fn double_unit(n: nat, unit: nat) -> nat
    decreases n - unit,
{
    if unit == 0 || n < DOUBLE_LIMIT * unit {
        unit
    } else {
        double_unit(n, 2 * unit)
    }
}

/// The double nearest to `n`.
pub open spec fn nearest_double(n: nat) -> nat {
    let unit = double_unit(n, 1);
    half_even(n, unit) * unit
}

/// A size in the largest unit that it reaches, to one decimal place; below a kibibyte in bytes.
pub open spec fn memory_text(bytes: nat) -> Seq<char> {
    let size = nearest_double(bytes);
    if size >= GIB {
        tenths_text(half_even(10 * size, GIB as nat)) + " GiB"@
    } else if size >= MIB {
        tenths_text(half_even(10 * size, MIB as nat)) + " MiB"@
    } else if size >= KIB {
        tenths_text(half_even(10 * size, KIB as nat)) + " KiB"@
    } else {
        decimal(size) + " B"@
    }
}

impl CpuPercent {
    /// Whether the sign bit is set.
    pub open spec fn is_negative(self) -> bool {
        self.bits / 0x8000_0000 == 1
    }

    /// The bits of the exponent.
    pub open spec fn exponent(self) -> int {
        (self.bits / 0x80_0000) as int % 256
    }

    /// The bits of the fraction.
    pub open spec fn fraction(self) -> nat {
        (self.bits % 0x80_0000) as nat
    }

    /// The integer that a power of two scales to the number.
    pub open spec fn mantissa(self) -> nat {
        if self.exponent() == 0 {
            self.fraction()
        } else {
            self.fraction() + 0x80_0000
        }
    }

    /// The exponent of the power of two that scales the mantissa.
    pub open spec fn scale(self) -> int {
        if self.exponent() == 0 {
            -149
        } else {
            self.exponent() - 150
        }
    }

    /// The number without its sign, to one decimal place.
    pub open spec fn magnitude_text(self) -> Seq<char> {
        if self.scale() >= 0 {
            decimal(self.mantissa() * two_to(self.scale() as nat)) + ".0"@
        } else {
            tenths_text(half_even(10 * self.mantissa(), two_to((-self.scale()) as nat)))
        }
    }

    /// The number to one decimal place.
    pub open spec fn text(self) -> Seq<char> {
        if self.exponent() == 255 && self.fraction() != 0 {
            "NaN"@
        } else {
            (if self.is_negative() {
                "-"@
            } else {
                ""@
            }) + if self.exponent() == 255 {
                "inf"@
            } else {
                self.magnitude_text()
            }
        }
    }
}

/// The text with blanks before it, up to `width` characters.
pub open spec fn right_aligned(s: Seq<char>, width: nat) -> Seq<char> {
    spaces((if s.len() < width {
        width - s.len()
    } else {
        0
    }) as nat) + s
}

/// A whole number shows no tenths.
pub proof fn law_tenths_of_a_whole_number(n: nat)
    ensures
        tenths_text(10 * n) == decimal(n) + "."@ + seq!['0'],
{
}

/// Doubles hold every integer below the limit.
pub proof fn law_small_sizes_are_exact(n: nat)
    requires
        n < DOUBLE_LIMIT,
    ensures
        nearest_double(n) == n,
{
    assert(n / 1 == n && n % 1 == 0);
    assert(half_even(n, 1) == n);
    assert(double_unit(n, 1) == 1);
    assert(n * 1 == n);
}

/// The number that decimal digits stand for.
pub open spec fn read_decimal(digits: Seq<char>) -> int
    decreases digits.len(),
{
    if digits.len() == 0 {
        0
    } else {
        10 * read_decimal(digits.drop_last()) + (digits.last() as int - '0' as int)
    }
}

/// A number in decimal digits reads as the number; it holds nothing but digits, and begins with a
/// zero only where it is zero.
pub proof fn law_decimal_reads_as_the_number(n: nat)
    ensures
        read_decimal(decimal(n)) == n,
        decimal(n).len() > 0,
        forall|i: int| 0 <= i < decimal(n).len() ==> '0' <= #[trigger] decimal(n)[i] <= '9',
        n > 0 ==> decimal(n)[0] != '0',
    decreases n,
{
    if n < 10 {
        assert(decimal(n).drop_last() =~= Seq::<char>::empty());
        reveal_with_fuel(read_decimal, 2);
    } else {
        law_decimal_reads_as_the_number(n / 10);
        let front = decimal(n / 10);
        assert(decimal(n).drop_last() =~= front);
        assert forall|i: int| 0 <= i < decimal(n).len() implies '0' <= #[trigger] decimal(n)[i]
            <= '9' by {
            if i < front.len() {
                assert(decimal(n)[i] == front[i]);
            }
        }
    }
}

/// An integer reads as itself: without a sign where it is not negative, and otherwise as what is
/// missing to zero behind a minus sign.
pub proof fn law_integers_read_as_themselves(n: int)
    ensures
        n >= 0 ==> read_decimal(integer_text(n)) == n && integer_text(n)[0] != '-',
        n < 0 ==> integer_text(n)[0] == '-' && read_decimal(integer_text(n).skip(1)) == -n,
{
    reveal_strlit("-");
    if n < 0 {
        law_decimal_reads_as_the_number((-n) as nat);
        assert(integer_text(n).skip(1) =~= decimal((-n) as nat));
    } else {
        law_decimal_reads_as_the_number(n as nat);
    }
}

/// No integer is nearer to a quotient than the one that it is rounded to; of two that are equally
/// near, it is the even one.
pub proof fn law_rounding_is_nearest(a: nat, b: nat)
    requires
        b > 0,
    ensures
        2 * (b * half_even(a, b)) - 2 * a <= b,
        2 * a - 2 * (b * half_even(a, b)) <= b,
        2 * (b * half_even(a, b)) - 2 * a == b || 2 * a - 2 * (b * half_even(a, b)) == b
            ==> half_even(a, b) % 2 == 0,
{
    let q = a / b;
    let r = a % b;
    assert(a == b * q + r && r < b) by (nonlinear_arith)
        requires
            q == a / b,
            r == a % b,
            b > 0,
    ;
    assert(b * (q + 1) == b * q + b) by (nonlinear_arith);
}

/// Tenths read as their whole part, a point and one digit.
pub proof fn law_tenths_read_as_the_number(t: nat)
    ensures
        ({
            let text = tenths_text(t);
            let whole = text.take(text.len() - 2);
            &&& text.len() >= 3
            &&& text[text.len() - 2] == '.'
            &&& '0' <= text.last() <= '9'
            &&& 10 * read_decimal(whole) + (text.last() as int - '0' as int) == t
        }),
{
    reveal_strlit(".");
    law_decimal_reads_as_the_number(t / 10);
    let text = tenths_text(t);
    assert(text.take(text.len() - 2) =~= decimal(t / 10));
}

/// Whether the text is a number of tenths in a unit, as near to a size as one decimal place allows.
pub open spec fn tells_size(text: Seq<char>, size: nat, unit: nat, name: Seq<char>) -> bool {
    exists|t: nat| #[trigger]
        tenths_text(t) + name == text && 2 * (unit * t) - 20 * size <= unit && 20 * size - 2 * (unit
            * t) <= unit
}

/// A size is told in bytes below a kibibyte, and otherwise to one decimal place in the largest of
/// the units that it reaches, each of which is a thousand and twenty-four of the one before.
pub proof fn law_sizes_are_told_in_their_unit(bytes: nat)
    requires
        bytes < 9_007_199_254_740_992,
    ensures
        bytes < 1024 ==> memory_text(bytes) == decimal(bytes) + " B"@,
        1024 <= bytes < 1024 * 1024 ==> tells_size(memory_text(bytes), bytes, 1024, " KiB"@),
        1024 * 1024 <= bytes < 1024 * 1024 * 1024 ==> tells_size(
            memory_text(bytes),
            bytes,
            1_048_576,
            " MiB"@,
        ),
        1024 * 1024 * 1024 <= bytes ==> tells_size(
            memory_text(bytes),
            bytes,
            1_073_741_824,
            " GiB"@,
        ),
{
    law_small_sizes_are_exact(bytes);
    law_rounding_is_nearest(10 * bytes, 1024);
    law_rounding_is_nearest(10 * bytes, 1_048_576);
    law_rounding_is_nearest(10 * bytes, 1_073_741_824);
    assert(1024 <= bytes < 1024 * 1024 ==> tenths_text(half_even(10 * bytes, 1024)) + " KiB"@
        == memory_text(bytes));
    assert(1024 * 1024 <= bytes < 1024 * 1024 * 1024 ==> tenths_text(
        half_even(10 * bytes, 1_048_576),
    ) + " MiB"@ == memory_text(bytes));
    assert(1024 * 1024 * 1024 <= bytes ==> tenths_text(half_even(10 * bytes, 1_073_741_824))
        + " GiB"@ == memory_text(bytes));
}

/// Beyond the limit, doubles are apart by powers of two; a size is off by half of that at most.
pub proof fn law_large_sizes_are_near(n: nat)
    ensures
        ({
            let unit = double_unit(n, 1);
            &&& unit > 0
            &&& n < 9_007_199_254_740_992 * unit
            &&& unit > 1 ==> 2 * n >= 9_007_199_254_740_992 * unit
            &&& exists|k: nat| two_to(k) == unit
            &&& 2 * nearest_double(n) - 2 * n <= unit
            &&& 2 * n - 2 * nearest_double(n) <= unit
            &&& nearest_double(n) % unit == 0
        }),
{
    assert(two_to(0) == 1);
    lemma_double_unit(n, 1, 0);
    let unit = double_unit(n, 1);
    law_rounding_is_nearest(n, unit);
    let m = half_even(n, unit);
    assert(m * unit == unit * m) by (nonlinear_arith);
    assert((m * unit) % unit == 0) by (nonlinear_arith)
        requires
            unit > 0,
    ;
}

proof fn lemma_double_unit(n: nat, unit: nat, k: nat)
    requires
        unit == two_to(k),
        unit > 0,
        unit > 1 ==> 2 * n >= DOUBLE_LIMIT * unit,
    ensures
        ({
            let r = double_unit(n, unit);
            &&& r > 0
            &&& n < DOUBLE_LIMIT * r
            &&& r > 1 ==> 2 * n >= DOUBLE_LIMIT * r
            &&& exists|k: nat| two_to(k) == r
        }),
    decreases n - unit,
{
    if n >= DOUBLE_LIMIT * unit {
        assert(two_to((k + 1) as nat) == 2 * unit);
        lemma_double_unit(n, 2 * unit, (k + 1) as nat);
    } else {
        assert(two_to(k) == unit);
    }
}

/// A share is told as what its bits stand for: nothing that is a number, an infinity, or a
/// fraction that a power of two scales, to one decimal place and as near to it as that allows.
pub proof fn law_shares_are_told_as_their_bits(
    share: CpuPercent,
    negative: bool,
    exponent: nat,
    fraction: nat,
)
    requires
        exponent <= 255,
        fraction < 8_388_608,
        share.bits == (if negative {
            2_147_483_648
        } else {
            0int
        }) + 8_388_608 * exponent + fraction,
    ensures
        ({
            let sign = if negative {
                seq!['-']
            } else {
                Seq::<char>::empty()
            };
            let whole = if exponent == 0 {
                fraction
            } else {
                8_388_608 + fraction
            };
            &&& exponent == 255 && fraction > 0 ==> share.text() == "NaN"@
            &&& exponent == 255 && fraction == 0 ==> share.text() == sign + "inf"@
            &&& 150 <= exponent < 255 ==> share.text() == sign + decimal(
                whole * two_to((exponent - 150) as nat),
            ) + ".0"@
            &&& exponent < 150 ==> exists|t: nat| #[trigger]
                tenths_text(t) == share.text().skip(sign.len() as int) && {
                    let unit = two_to(
                        (if exponent == 0 {
                            149
                        } else {
                            150 - exponent
                        }) as nat,
                    );
                    &&& share.text().take(sign.len() as int) == sign
                    &&& 2 * (unit * t) - 20 * whole <= unit
                    &&& 20 * whole - 2 * (unit * t) <= unit
                }
        }),
{
    reveal_strlit("-");
    reveal_strlit("");
    assert(share.fraction() == fraction && share.exponent() == exponent && share.is_negative()
        == negative);
    let sign = if negative {
        "-"@
    } else {
        ""@
    };
    assert(negative ==> sign =~= seq!['-']);
    assert(!negative ==> sign =~= Seq::<char>::empty());
    if exponent < 150 {
        let unit = two_to((-share.scale()) as nat);
        lemma_two_to_grows(0, (-share.scale()) as nat);
        law_rounding_is_nearest(10 * share.mantissa(), unit);
        let t = half_even(10 * share.mantissa(), unit);
        assert(share.text() == sign + tenths_text(t));
        assert(share.text().skip(sign.len() as int) =~= tenths_text(t));
        assert(share.text().take(sign.len() as int) =~= sign);
    } else if exponent < 255 {
        let digits = decimal(share.mantissa() * two_to((exponent - 150) as nat));
        assert(sign + (digits + ".0"@) =~= sign + digits + ".0"@);
    }
}

/// A text that is aligned to the right ends as it did, is as long as asked for, or as long as it
/// was where that is longer, and has nothing but blanks before it.
pub proof fn law_aligned_texts_end_together(s: Seq<char>, width: nat)
    ensures
        ({
            let all = right_aligned(s, width);
            let blanks = all.len() - s.len();
            &&& all.len() == if s.len() < width {
                width
            } else {
                s.len()
            }
            &&& all.skip(blanks) == s
            &&& forall|i: int| 0 <= i < blanks ==> #[trigger] all[i] == ' '
        }),
{
    let all = right_aligned(s, width);
    assert(all.skip(all.len() - s.len()) =~= s);
}

/// The digit for a number below ten.
fn digit_of(d: u64) -> (r: char)
    requires
        d < 10,
    ensures
        r == digit(d as nat),
{
    if d == 0 {
        '0'
    } else if d == 1 {
        '1'
    } else if d == 2 {
        '2'
    } else if d == 3 {
        '3'
    } else if d == 4 {
        '4'
    } else if d == 5 {
        '5'
    } else if d == 6 {
        '6'
    } else if d == 7 {
        '7'
    } else if d == 8 {
        '8'
    } else {
        '9'
    }
}

/// The number in decimal digits.
pub fn decimal_of(n: u128) -> (r: String)
    ensures
        r@ == decimal(n as nat),
    decreases n,
{
    if n < 10 {
        let mut r = String::new();
        r.push(digit_of(n as u64));
        assert(r@ == seq![digit(n as nat)]);
        r
    } else {
        let mut r = decimal_of(n / 10);
        r.push(digit_of((n % 10) as u64));
        r
    }
}

/// The integer in decimal digits.
pub fn integer_text_of(n: i64) -> (r: String)
    ensures
        r@ == integer_text(n as int),
{
    if n < 0 {
        let mut r = "-".to_owned();
        r.append(decimal_of((-(n as i128)) as u128).as_str());
        r
    } else {
        decimal_of(n as u128)
    }
}

/// The integer nearest to `a / b`.
fn half_even_of(a: u128, b: u128) -> (r: u128)
    requires
        0 < b <= 0x1_0000_0000_0000_0000,
        a <= 0x100_0000_0000_0000_0000,
    ensures
        r == half_even(a as nat, b as nat),
{
    let q = a / b;
    let rest = a % b;
    assert(q <= a) by (nonlinear_arith)
        requires
            q == a / b,
            b > 0,
    ;
    if 2 * rest < b || (2 * rest == b && q % 2 == 0) {
        q
    } else {
        q + 1
    }
}

/// A number of tenths, with one decimal place.
fn tenths_text_of(t: u128) -> (r: String)
    ensures
        r@ == tenths_text(t as nat),
{
    let mut r = decimal_of(t / 10);
    r.append(".");
    r.push(digit_of((t % 10) as u64));
    assert(r@ == tenths_text(t as nat));
    r
}

/// The distances between doubles that hold a size.
spec fn is_unit(unit: int) -> bool {
    unit == 1 || unit == 2 || unit == 4 || unit == 8 || unit == 16 || unit == 32 || unit == 64
        || unit == 128 || unit == 256 || unit == 512 || unit == 1024 || unit == 2048
}

/// The double nearest to `n`.
fn nearest_double_of(n: u64) -> (r: u128)
    ensures
        r == nearest_double(n as nat),
        r <= 0x1_0000_0000_0000_0000,
{
    let mut unit: u128 = 1;
    let size = n as u128;
    while size >= 0x20_0000_0000_0000 * unit
        invariant
            size == n,
            is_unit(unit as int),
            double_unit(n as nat, 1) == double_unit(n as nat, unit as nat),
        decreases size - unit,
    {
        unit = 2 * unit;
    }
    let q = half_even_of(size, unit);
    proof {
        let whole = size / unit;
        assert(whole < 0x20_0000_0000_0000) by (nonlinear_arith)
            requires
                size < 0x20_0000_0000_0000 * unit,
                unit > 0,
                whole == size / unit,
        ;
        assert(q * unit <= 0x20_0000_0000_0000 * unit) by (nonlinear_arith)
            requires
                q <= 0x20_0000_0000_0000,
                unit > 0,
        ;
    }
    q * unit
}

/// A size in the largest unit that it reaches, to one decimal place; below a kibibyte in bytes.
pub fn format_memory(bytes: u64) -> (r: String)
    ensures
        r@ == memory_text(bytes as nat),
{
    let size = nearest_double_of(bytes);
    if size >= GIB as u128 {
        let mut r = tenths_text_of(half_even_of(10 * size, GIB as u128));
        r.append(" GiB");
        r
    } else if size >= MIB as u128 {
        let mut r = tenths_text_of(half_even_of(10 * size, MIB as u128));
        r.append(" MiB");
        r
    } else if size >= KIB as u128 {
        let mut r = tenths_text_of(half_even_of(10 * size, KIB as u128));
        r.append(" KiB");
        r
    } else {
        let mut r = decimal_of(size);
        r.append(" B");
        r
    }
}

proof fn lemma_two_to_grows(j: nat, k: nat)
    requires
        j <= k,
    ensures
        1 <= two_to(j) <= two_to(k),
    decreases k,
{
    if j < k {
        lemma_two_to_grows(j, (k - 1) as nat);
    } else if j > 0 {
        lemma_two_to_grows((j - 1) as nat, (j - 1) as nat);
    }
}

/// Two to the power of `k`.
fn two_to_of(k: u32) -> (r: u128)
    requires
        k <= 104,
    ensures
        r == two_to(k as nat),
        r <= 0x100_0000_0000_0000_0000_0000_0000,
{
    let mut r: u128 = 1;
    let mut i: u32 = 0;
    assert(two_to(104) == 0x100_0000_0000_0000_0000_0000_0000) by {
        reveal_with_fuel(two_to, 14);
        assert(two_to(13) == 0x2000);
        assert(two_to(26) == 0x400_0000);
        assert(two_to(39) == 0x80_0000_0000);
        assert(two_to(52) == 0x10_0000_0000_0000);
        assert(two_to(65) == 0x2_0000_0000_0000_0000);
        assert(two_to(78) == 0x4000_0000_0000_0000_0000);
        assert(two_to(91) == 0x800_0000_0000_0000_0000_0000);
    }
    while i < k
        invariant
            i <= k <= 104,
            r == two_to(i as nat),
            two_to(104) == 0x100_0000_0000_0000_0000_0000_0000,
        decreases k - i,
    {
        proof {
            lemma_two_to_grows((i + 1) as nat, 104);
        }
        r = 2 * r;
        i = i + 1;
    }
    proof {
        lemma_two_to_grows(k as nat, 104);
    }
    r
}

impl CpuPercent {
    /// The number without its sign, to one decimal place.
    fn magnitude_text_of(self) -> (r: String)
        requires
            self.exponent() < 255,
        ensures
            r@ == self.magnitude_text(),
    {
        let exponent = (self.bits / 0x80_0000) % 256;
        let fraction = (self.bits % 0x80_0000) as u128;
        let mantissa: u128 = if exponent == 0 {
            fraction
        } else {
            fraction + 0x80_0000
        };
        if exponent >= 150 {
            let power = two_to_of(exponent - 150);
            proof {
                assert(mantissa * power <= 0xff_ffff * 0x100_0000_0000_0000_0000_0000_0000) by (nonlinear_arith)
                    requires
                        mantissa <= 0xff_ffff,
                        power <= 0x100_0000_0000_0000_0000_0000_0000,
                ;
            }
            let mut r = decimal_of(mantissa * power);
            r.append(".0");
            r
        } else {
            let shift: u32 = if exponent == 0 {
                149
            } else {
                150 - exponent
            };
            if shift >= 32 {
                proof {
                    reveal_with_fuel(two_to, 33);
                    lemma_two_to_grows(32, shift as nat);
                    let power = two_to(shift as nat);
                    assert((10 * mantissa) / power as int == 0 && (10 * mantissa) % power as int
                        == 10 * mantissa) by (nonlinear_arith)
                        requires
                            0 <= 10 * mantissa < power,
                    ;
                }
                tenths_text_of(0)
            } else {
                let power = two_to_of(shift);
                proof {
                    reveal_with_fuel(two_to, 33);
                    lemma_two_to_grows(shift as nat, 32);
                }
                tenths_text_of(half_even_of(10 * mantissa, power))
            }
        }
    }

    /// The number to one decimal place.
    pub fn text_of(self) -> (r: String)
        ensures
            r@ == self.text(),
    {
        let exponent = (self.bits / 0x80_0000) % 256;
        if exponent == 255 && self.bits % 0x80_0000 != 0 {
            return "NaN".to_owned();
        }
        let mut r = if self.bits / 0x8000_0000 == 1 {
            "-".to_owned()
        } else {
            "".to_owned()
        };
        if exponent == 255 {
            r.append("inf");
        } else {
            r.append(self.magnitude_text_of().as_str());
        }
        r
    }
}

/// The text with blanks before it, up to `width` characters.
pub fn right_align(s: &str, width: usize) -> (r: String)
    ensures
        r@ == right_aligned(s@, width as nat),
{
    let count = chars_of(s).len();
    let mut r = if count < width {
        spaces_of(width - count)
    } else {
        spaces_of(0)
    };
    r.append(s);
    r
}

} // verus!
