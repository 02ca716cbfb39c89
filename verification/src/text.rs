//! Character-level string utilities: the crate's text model is `Seq<char>`.
use vstd::prelude::*;
use vstd::std_specs::iter::IteratorSpec;
use vstd::utf8::encode_utf8;

verus! {

broadcast use vstd::string::group_string_axioms;

/// `String::push`: appends one character.
#[verifier::external_body]
fn string_push(s: &mut String, c: char)
    ensures
        final(s)@ == old(s)@.push(c),
{
    s.push(c);
}

/// The characters of `s`, in order.
pub fn chars_of(s: &str) -> (v: Vec<char>)
    ensures
        v@ == s@,
{
    let mut it = s.chars();
    let mut v: Vec<char> = Vec::new();
    loop
        invariant
            it.obeys_prophetic_iter_laws(),
            v@ + it.remaining() == s@,
            it.decrease() is Some,
        decreases it.decrease()->0,
    {
        match it.next() {
            Some(c) => {
                v.push(c);
            },
            None => {
                assert(v@ =~= s@);
                return v;
            },
        }
    }
}

/// A `String` holding exactly the characters of `v`.
pub fn string_of(v: &[char]) -> (s: String)
    ensures
        s@ == v@,
{
    let mut s = String::new();
    let mut i: usize = 0;
    while i < v.len()
        invariant
            i <= v.len(),
            s@ == v@.subrange(0, i as int),
        decreases v.len() - i,
    {
        string_push(&mut s, v[i]);
        i = i + 1;
        assert(s@ =~= v@.subrange(0, i as int));
    }
    assert(v@.subrange(0, v@.len() as int) =~= v@);
    s
}

/// Append `t` to `s`.
pub fn push_str(s: &mut String, t: &str)
    ensures
        final(s)@ == old(s)@ + t@,
{
    s.append(t);
}

/// Append the character `c` to `s`.
pub fn push_char(s: &mut String, c: char)
    ensures
        final(s)@ == old(s)@.push(c),
{
    string_push(s, c);
}

/// The upper-case hexadecimal digit for `d` (0..16).
pub open spec fn hex_digit(d: int) -> char {
    if d < 10 {
        (48 + d) as char
    } else {
        (55 + d) as char
    }
}

/// The last `w` hexadecimal digits of `v`, most significant first — `{:0wX}` for a value
/// that fits in `w` digits.
pub open spec fn hex_fixed(v: nat, w: nat) -> Seq<char>
    decreases w,
{
    if w == 0 {
        Seq::empty()
    } else {
        hex_fixed(v / 16, (w - 1) as nat).push(hex_digit((v % 16) as int))
    }
}

fn hex_digit_exec(d: u64) -> (c: char)
    requires
        d < 16,
    ensures
        c == hex_digit(d as int),
{
    let table: [char; 16] = ['0', '1', '2', '3', '4', '5', '6', '7', '8', '9', 'A', 'B', 'C', 'D', 'E', 'F'];
    assert(table@[d as int] == hex_digit(d as int)) by {
        assert(table@[0] == '0' && table@[1] == '1' && table@[2] == '2' && table@[3] == '3');
        assert(table@[4] == '4' && table@[5] == '5' && table@[6] == '6' && table@[7] == '7');
        assert(table@[8] == '8' && table@[9] == '9' && table@[10] == 'A' && table@[11] == 'B');
        assert(table@[12] == 'C' && table@[13] == 'D' && table@[14] == 'E' && table@[15] == 'F');
    }
    table[d as usize]
}

/// Append the last `w` hexadecimal digits of `v` (upper case, zero-padded).
pub fn push_hex(s: &mut String, v: u64, w: usize)
    requires
        w <= 16,
    ensures
        final(s)@ == old(s)@ + hex_fixed(v as nat, w as nat),
{
    let mut digits: Vec<char> = Vec::new();
    let mut rest: u64 = v;
    let mut k: usize = 0;
    let ghost mut divisor: nat = 1;
    while k < w
        invariant
            k <= w,
            rest as nat == v as nat / divisor,
            divisor > 0,
            hex_fixed(v as nat, w as nat) == hex_fixed(rest as nat, (w - k) as nat) + digits@,
        decreases w - k,
    {
        let ghost r = rest as nat;
        assert(hex_fixed(r, (w - k) as nat) == hex_fixed(r / 16, (w - k - 1) as nat).push(hex_digit((r % 16) as int)));
        let c = hex_digit_exec(rest % 16);
        let ghost prev = digits@;
        digits.insert(0, c);
        proof {
            assert(hex_fixed(r / 16, (w - k - 1) as nat).push(hex_digit((r % 16) as int)) + prev
                =~= hex_fixed(r / 16, (w - k - 1) as nat) + digits@) by {
                assert(digits@ =~= seq![c] + prev);
            }
            vstd::arithmetic::div_mod::lemma_div_denominator(v as int, divisor as int, 16);
            divisor = divisor * 16;
        }
        rest = rest / 16;
        k = k + 1;
    }
    assert(hex_fixed(rest as nat, 0) =~= Seq::<char>::empty());
    assert(hex_fixed(v as nat, w as nat) =~= digits@);
    let mut i: usize = 0;
    let ghost start = s@;
    while i < digits.len()
        invariant
            i <= digits.len(),
            s@ == start + digits@.subrange(0, i as int),
        decreases digits.len() - i,
    {
        string_push(s, digits[i]);
        assert(s@ =~= start + digits@.subrange(0, i + 1));
        i = i + 1;
    }
    assert(digits@.subrange(0, digits@.len() as int) =~= digits@);
}

/// The decimal digit character for `d` (0..10).
pub open spec fn decimal_digit(d: int) -> char {
    (48 + d) as char
}

/// The decimal rendering of `v`, without leading zeros (`0` for zero).
pub open spec fn decimal(v: nat) -> Seq<char>
    decreases v,
{
    if v < 10 {
        seq![decimal_digit(v as int)]
    } else {
        decimal(v / 10).push(decimal_digit((v % 10) as int))
    }
}

/// Append the decimal rendering of `v`.
pub fn push_decimal(s: &mut String, v: u64)
    ensures
        final(s)@ == old(s)@ + decimal(v as nat),
    decreases v,
{
    if v >= 10 {
        push_decimal(s, v / 10);
    }
    let c = hex_digit_exec(v % 10);
    string_push(s, c);
    assert(s@ =~= old(s)@ + decimal(v as nat));
}

/// A 4-byte volume serial as `dir`/`vol` show it: `XXXX-XXXX`, upper-case hex.
pub open spec fn volume_serial_text(serial: u32) -> Seq<char> {
    hex_fixed((serial / 65536) as nat, 4) + seq!['-'] + hex_fixed((serial % 65536) as nat, 4)
}

/// Render a 4-byte volume serial as `XXXX-XXXX` (upper hex), the canonical form every
/// source uses so the same serial from any source matches.
pub fn format_volume_serial(serial: u32) -> (r: String)
    ensures
        r@ == volume_serial_text(serial),
{
    let hi = serial >> 16;
    let lo = serial & 0xFFFF;
    assert(serial >> 16 == serial / 65536) by (bit_vector);
    assert(serial & 0xFFFF == serial % 65536) by (bit_vector);
    let mut out = String::new();
    push_hex(&mut out, hi as u64, 4);
    push_char(&mut out, '-');
    push_hex(&mut out, lo as u64, 4);
    out
}

/// Distinct digit values have distinct hex digits.
proof fn lemma_hex_digit_injective(a: int, b: int)
    requires
        0 <= a < 16,
        0 <= b < 16,
        hex_digit(a) == hex_digit(b),
    ensures
        a == b,
{
    assert(hex_digit(a) as int == if a < 10 { 48 + a } else { 55 + a });
    assert(hex_digit(b) as int == if b < 10 { 48 + b } else { 55 + b });
}

/// Four hex digits determine a 16-bit value.
proof fn lemma_four_hex_digits_injective(v: nat, u: nat)
    requires
        v < 65536,
        u < 65536,
        hex_fixed(v, 4) == hex_fixed(u, 4),
    ensures
        v == u,
{
    reveal_with_fuel(hex_fixed, 5);
    let hv = hex_fixed(v, 4);
    let hu = hex_fixed(u, 4);
    assert(hv[3] == hex_digit((v % 16) as int));
    assert(hu[3] == hex_digit((u % 16) as int));
    assert(hv[2] == hex_digit(((v / 16) % 16) as int));
    assert(hu[2] == hex_digit(((u / 16) % 16) as int));
    assert(hv[1] == hex_digit(((v / 16 / 16) % 16) as int));
    assert(hu[1] == hex_digit(((u / 16 / 16) % 16) as int));
    assert(hv[0] == hex_digit(((v / 16 / 16 / 16) % 16) as int));
    assert(hu[0] == hex_digit(((u / 16 / 16 / 16) % 16) as int));
    lemma_hex_digit_injective((v % 16) as int, (u % 16) as int);
    lemma_hex_digit_injective(((v / 16) % 16) as int, ((u / 16) % 16) as int);
    lemma_hex_digit_injective(((v / 16 / 16) % 16) as int, ((u / 16 / 16) % 16) as int);
    lemma_hex_digit_injective(((v / 16 / 16 / 16) % 16) as int, ((u / 16 / 16 / 16) % 16) as int);
}

/// The canonical form is faithful: distinct volume serials never render alike, so two
/// sources joined on the text are joined on the serial itself.
pub proof fn law_volume_serial_text_is_faithful(a: u32, b: u32)
    ensures
        volume_serial_text(a) == volume_serial_text(b) ==> a == b,
{
    if volume_serial_text(a) == volume_serial_text(b) {
        let ta = volume_serial_text(a);
        let tb = volume_serial_text(b);
        let ha = hex_fixed((a / 65536) as nat, 4);
        let hb = hex_fixed((b / 65536) as nat, 4);
        let la = hex_fixed((a % 65536) as nat, 4);
        let lb = hex_fixed((b % 65536) as nat, 4);
        reveal_with_fuel(hex_fixed, 5);
        assert(ha.len() == 4 && hb.len() == 4 && la.len() == 4 && lb.len() == 4);
        assert(ta.take(4) =~= ha);
        assert(tb.take(4) =~= hb);
        assert(ta.skip(5) =~= la);
        assert(tb.skip(5) =~= lb);
        lemma_four_hex_digits_injective((a / 65536) as nat, (b / 65536) as nat);
        lemma_four_hex_digits_injective((a % 65536) as nat, (b % 65536) as nat);
    }
}

/// Two strings hold the same characters.
pub fn same_text(a: &String, b: &String) -> (r: bool)
    ensures
        r == (a@ == b@),
{
    *a == *b
}

/// The decimal rendering of a signed integer (`-` before a negative magnitude).
pub open spec fn signed_decimal(v: int) -> Seq<char> {
    if v < 0 {
        seq!['-'] + decimal((-v) as nat)
    } else {
        decimal(v as nat)
    }
}

/// Append the decimal rendering of a signed integer.
pub fn push_signed(s: &mut String, v: i64)
    ensures
        final(s)@ == old(s)@ + signed_decimal(v as int),
{
    if v < 0 {
        push_char(s, '-');
        let magnitude: u64 = if v == i64::MIN {
            9223372036854775808u64
        } else {
            (-v) as u64
        };
        push_decimal(s, magnitude);
        assert(s@ =~= old(s)@ + signed_decimal(v as int));
    } else {
        push_decimal(s, v as u64);
    }
}

/// The `{:?}` rendering of a string: quoted, with `Debug` escapes.
pub uninterp spec fn debug_rendering(s: Seq<char>) -> Seq<char>;

/// The `{:?}` rendering of `s` (std's `Debug` for `str`).
#[verifier::external_body]
pub(crate) fn debug_text(s: &str) -> (r: String)
    ensures
        r@ == debug_rendering(s@),
{
    format!("{:?}", s)
}

/// The decimal rendering of a count.
pub fn push_count(s: &mut String, v: usize)
    ensures
        final(s)@ == old(s)@ + decimal(v as nat),
{
    push_decimal(s, v as u64);
}

/// An owned copy of `t`.
pub fn owned(t: &str) -> (r: String)
    ensures
        r@ == t@,
{
    let mut s = String::new();
    push_str(&mut s, t);
    assert(s@ =~= t@);
    s
}

/// `n` zeros followed by `digits`, so that the whole is at least `w` long.
pub open spec fn zero_pad(digits: Seq<char>, w: nat) -> Seq<char> {
    if digits.len() < w {
        Seq::new((w - digits.len()) as nat, |i: int| '0') + digits
    } else {
        digits
    }
}

/// `{:0w}` for a signed integer: the sign first, then zeros up to width `w`.
pub open spec fn padded_signed(v: int, w: nat) -> Seq<char> {
    if v < 0 {
        seq!['-'] + zero_pad(decimal((-v) as nat), if w >= 1 { (w - 1) as nat } else { 0 })
    } else {
        zero_pad(decimal(v as nat), w)
    }
}

/// Append `count` copies of `c`.
pub fn push_repeated(s: &mut String, c: char, count: usize)
    ensures
        final(s)@ == old(s)@ + Seq::new(count as nat, |i: int| c),
{
    let mut i: usize = 0;
    while i < count
        invariant
            i <= count,
            s@ == old(s)@ + Seq::new(i as nat, |k: int| c),
        decreases count - i,
    {
        string_push(s, c);
        assert(s@ =~= old(s)@ + Seq::new((i + 1) as nat, |k: int| c));
        i = i + 1;
    }
}

/// The number of decimal digits of `v`.
fn decimal_len(v: u64) -> (r: u64)
    ensures
        r == decimal(v as nat).len(),
        r <= v as nat + 1,
    decreases v,
{
    if v < 10 {
        1
    } else {
        decimal_len(v / 10) + 1
    }
}

/// Append `{:0w}` of a signed integer.
pub fn push_padded(s: &mut String, v: i64, w: usize)
    ensures
        final(s)@ == old(s)@ + padded_signed(v as int, w as nat),
{
    if v < 0 {
        let magnitude: u64 = if v == i64::MIN {
            9223372036854775808u64
        } else {
            (-v) as u64
        };
        push_char(s, '-');
        let width = if w >= 1 { w - 1 } else { 0 };
        let len = decimal_len(magnitude);
        if len < width as u64 {
            push_repeated(s, '0', width - len as usize);
        }
        push_decimal(s, magnitude);
    } else {
        let len = decimal_len(v as u64);
        if len < w as u64 {
            push_repeated(s, '0', w - len as usize);
        }
        push_decimal(s, v as u64);
    }
    assert(s@ =~= old(s)@ + padded_signed(v as int, w as nat));
}

/// Euclidean division (`div_euclid`, `rem_euclid`) by a positive divisor.
pub fn div_rem_euclid(a: i64, b: i64) -> (r: (i64, i64))
    requires
        b > 0,
    ensures
        r.0 == a / b,
        r.1 == a % b,
{
    if a >= 0 {
        (a / b, a % b)
    } else {
        let n = -(a + 1);
        let q = n / b;
        let m = n % b;
        proof {
            vstd::arithmetic::div_mod::lemma_fundamental_div_mod(n as int, b as int);
            assert(n == b * q + m);
            assert((-(q as int) - 1) * b == -(b * q) - b) by (nonlinear_arith);
            vstd::arithmetic::div_mod::lemma_fundamental_div_mod_converse(a as int, b as int, -(q as int) - 1, b - 1 - m);
        }
        (-q - 1, b - 1 - m)
    }
}

/// The UTF-8 bytes of `s` (`str::as_bytes`, owned).
pub fn utf8_bytes(s: &str) -> (r: Vec<u8>)
    ensures
        r@ == encode_utf8(s@),
{
    vstd::slice::slice_to_vec(s.as_bytes())
}

/// `line` without one trailing carriage return.
pub open spec fn strip_cr(line: Seq<char>) -> Seq<char> {
    if line.len() > 0 && line.last() == '\r' {
        line.drop_last()
    } else {
        line
    }
}

/// The state of splitting `s` into lines: the finished lines and the one in progress.
pub open spec fn line_split(s: Seq<char>) -> (Seq<Seq<char>>, Seq<char>)
    decreases s.len(),
{
    if s.len() == 0 {
        (Seq::empty(), Seq::empty())
    } else {
        let (done, cur) = line_split(s.drop_last());
        if s.last() == '\n' {
            (done.push(strip_cr(cur)), Seq::empty())
        } else {
            (done, cur.push(s.last()))
        }
    }
}

/// The lines of `s` as `str::lines` yields them: split at `\n`, a `\r` before it
/// dropped, no empty line after a final `\n`.
pub open spec fn text_lines(s: Seq<char>) -> Seq<Seq<char>> {
    let (done, cur) = line_split(s);
    if cur.len() > 0 {
        done.push(cur)
    } else {
        done
    }
}

/// `s` without its last character, if that is a carriage return.
fn strip_trailing_cr(v: &mut Vec<char>)
    ensures
        final(v)@ == strip_cr(old(v)@),
{
    if v.len() > 0 && v[v.len() - 1] == '\r' {
        v.pop();
    }
}

/// The lines of `s` (`str::lines`).
pub fn lines_of(s: &str) -> (r: Vec<Vec<char>>)
    ensures
        r@.map_values(|l: Vec<char>| l@) == text_lines(s@),
{
    let cs = chars_of(s);
    let mut done: Vec<Vec<char>> = Vec::new();
    let mut cur: Vec<char> = Vec::new();
    let mut i: usize = 0;
    while i < cs.len()
        invariant
            i <= cs.len(),
            cs@ == s@,
            (done@.map_values(|l: Vec<char>| l@), cur@) == line_split(cs@.take(i as int)),
        decreases cs.len() - i,
    {
        proof {
            let t = cs@.take(i + 1);
            assert(t.drop_last() =~= cs@.take(i as int));
        }
        if cs[i] == '\n' {
            strip_trailing_cr(&mut cur);
            let line = cur;
            done.push(line);
            cur = Vec::new();
            proof {
                let t = cs@.take(i + 1);
                assert(done@.map_values(|l: Vec<char>| l@) =~= line_split(t).0);
            }
        } else {
            cur.push(cs[i]);
        }
        i = i + 1;
    }
    assert(cs@.take(cs.len() as int) =~= cs@);
    if cur.len() > 0 {
        done.push(cur);
    }
    assert(done@.map_values(|l: Vec<char>| l@) =~= text_lines(s@));
    done
}

/// The encoding of a concatenation is the concatenation of the encodings.
pub proof fn lemma_encode_utf8_concat(a: Seq<char>, b: Seq<char>)
    ensures
        encode_utf8(a + b) == encode_utf8(a) + encode_utf8(b),
    decreases a.len(),
{
    if a.len() == 0 {
        assert(a + b =~= b);
        assert(encode_utf8(a) + encode_utf8(b) =~= encode_utf8(b));
    } else {
        assert((a + b).drop_first() =~= a.drop_first() + b);
        assert((a + b)[0] == a[0]);
        lemma_encode_utf8_concat(a.drop_first(), b);
        assert(encode_utf8(a + b) =~= encode_utf8(a) + encode_utf8(b));
    }
}

/// Append the UTF-8 bytes of `t`.
pub fn push_text(out: &mut Vec<u8>, t: &str)
    ensures
        final(out)@ == old(out)@ + encode_utf8(t@),
{
    let mut b = utf8_bytes(t);
    out.append(&mut b);
}

/// Append the UTF-8 bytes of the decimal rendering of `v`.
pub fn push_text_count(out: &mut Vec<u8>, v: usize)
    ensures
        final(out)@ == old(out)@ + encode_utf8(decimal(v as nat)),
{
    let mut s = String::new();
    push_count(&mut s, v);
    assert(s@ =~= decimal(v as nat));
    push_text(out, s.as_str());
}

/// Append `{:0w}` of an unsigned integer.
pub fn push_zero_padded(s: &mut String, v: u64, w: usize)
    ensures
        final(s)@ == old(s)@ + zero_pad(decimal(v as nat), w as nat),
{
    let len = decimal_len(v);
    if len < w as u64 {
        push_repeated(s, '0', w - len as usize);
    }
    push_decimal(s, v);
    assert(s@ =~= old(s)@ + zero_pad(decimal(v as nat), w as nat));
}

/// Two character sequences are equal.
pub fn same_chars(a: &Vec<char>, b: &Vec<char>) -> (r: bool)
    ensures
        r == (a@ == b@),
{
    if a.len() != b.len() {
        return false;
    }
    let mut i: usize = 0;
    while i < a.len()
        invariant
            i <= a.len(),
            a.len() == b.len(),
            a@.take(i as int) == b@.take(i as int),
        decreases a.len() - i,
    {
        if a[i] != b[i] {
            assert(a@[i as int] != b@[i as int]);
            return false;
        }
        assert(a@.take(i + 1) =~= a@.take(i as int).push(a@[i as int]));
        assert(b@.take(i + 1) =~= b@.take(i as int).push(b@[i as int]));
        i = i + 1;
    }
    assert(a@.take(a.len() as int) =~= a@);
    assert(b@.take(b.len() as int) =~= b@);
    true
}

/// Two texts hold the same characters.
pub fn same_text_str(a: &str, b: &str) -> (r: bool)
    ensures
        r == (a@ == b@),
{
    let x = chars_of(a);
    let y = chars_of(b);
    same_chars(&x, &y)
}

/// `s` begins with `p`.
pub open spec fn has_prefix(s: Seq<char>, p: Seq<char>) -> bool {
    p.len() <= s.len() && s.take(p.len() as int) == p
}

/// `s` begins with `p` (`str::starts_with`).
pub fn starts_with_str(s: &str, p: &str) -> (r: bool)
    ensures
        r == has_prefix(s@, p@),
{
    let x = chars_of(s);
    let y = chars_of(p);
    if y.len() > x.len() {
        return false;
    }
    let mut i: usize = 0;
    while i < y.len()
        invariant
            i <= y.len() <= x.len(),
            x@ == s@,
            y@ == p@,
            x@.take(i as int) == y@.take(i as int),
        decreases y.len() - i,
    {
        if x[i] != y[i] {
            assert(x@.take(y.len() as int)[i as int] != y@[i as int]);
            return false;
        }
        assert(x@.take(i + 1) =~= x@.take(i as int).push(x@[i as int]));
        assert(y@.take(i + 1) =~= y@.take(i as int).push(y@[i as int]));
        i = i + 1;
    }
    assert(y@.take(y.len() as int) =~= y@);
    true
}

} // verus!
