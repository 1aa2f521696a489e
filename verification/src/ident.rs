//! Device identity: the vendor/product pair that keys per-device
//! configuration overrides, with its `"vid:pid"` text form.

use vstd::prelude::*;

use crate::chars::push_char;

verus! {

/// Identity of a physical input device: USB vendor and product id.  Its
/// text form is four lowercase hex digits, a colon, and four more digits.
#[derive(Copy, Clone, Debug, PartialEq, Eq, Hash, Structural)]
pub struct UsbDevice {
    /// USB vendor id.
    pub vid: u16,
    /// USB product id.
    pub pid: u16,
}

/// The lowercase hex digit standing for a value below sixteen.
pub open spec fn hex_digit_char(d: int) -> char {
    if d == 0 {
        '0'
    } else if d == 1 {
        '1'
    } else if d == 2 {
        '2'
    } else if d == 3 {
        '3'
    } else if d == 4 {
        '4'
    } else if d == 5 {
        '5'
    } else if d == 6 {
        '6'
    } else if d == 7 {
        '7'
    } else if d == 8 {
        '8'
    } else if d == 9 {
        '9'
    } else if d == 10 {
        'a'
    } else if d == 11 {
        'b'
    } else if d == 12 {
        'c'
    } else if d == 13 {
        'd'
    } else if d == 14 {
        'e'
    } else {
        'f'
    }
}

/// Whether a character is a hex digit, either case.
pub open spec fn is_hex_digit(c: char) -> bool {
    ||| ('0' as u32 <= c as u32 && c as u32 <= '9' as u32)
    ||| ('a' as u32 <= c as u32 && c as u32 <= 'f' as u32)
    ||| ('A' as u32 <= c as u32 && c as u32 <= 'F' as u32)
}

/// The value of a hex digit character.
pub open spec fn hex_digit_value(c: char) -> int {
    if '0' as u32 <= c as u32 && c as u32 <= '9' as u32 {
        c as u32 - '0' as u32
    } else if 'a' as u32 <= c as u32 && c as u32 <= 'f' as u32 {
        10 + c as u32 - 'a' as u32
    } else {
        10 + c as u32 - 'A' as u32
    }
}

/// The four-digit lowercase hex form of a sixteen-bit value, high digit
/// first.
pub open spec fn spec_hex4(v: int) -> Seq<char> {
    seq![
        hex_digit_char((v / 4096) % 16),
        hex_digit_char((v / 256) % 16),
        hex_digit_char((v / 16) % 16),
        hex_digit_char(v % 16),
    ]
}

/// The canonical text form of an identity: `"vid:pid"`, both in four
/// lowercase hex digits.
pub open spec fn spec_ident_string(vid: u16, pid: u16) -> Seq<char> {
    spec_hex4(vid as int) + seq![':'] + spec_hex4(pid as int)
}

/// Index of the first colon of a character sequence, if any.
pub open spec fn first_colon(s: Seq<char>) -> Option<int>
    decreases s.len(),
{
    if s.len() == 0 {
        None
    } else if s[0] == ':' {
        Some(0int)
    } else {
        match first_colon(s.skip(1)) {
            Some(i) => Some(i + 1),
            None => None,
        }
    }
}

/// Folds hex digits into a value, high digit first; `None` on a non-digit
/// or once the value leaves the sixteen-bit range.
pub open spec fn hex_fold(s: Seq<char>, acc: int) -> Option<int>
    decreases s.len(),
{
    if s.len() == 0 {
        Some(acc)
    } else if !is_hex_digit(s[0]) {
        None
    } else if acc * 16 + hex_digit_value(s[0]) > 0xffff {
        None
    } else {
        hex_fold(s.skip(1), acc * 16 + hex_digit_value(s[0]))
    }
}

/// A nonempty all-hex sequence read as a sixteen-bit value.
pub open spec fn spec_parse_hex16(s: Seq<char>) -> Option<u16> {
    if s.len() == 0 {
        None
    } else {
        match hex_fold(s, 0) {
            Some(v) => Some(v as u16),
            None => None,
        }
    }
}

/// The identity a string parses to: the part before the first colon is the
/// vendor id, the part from there to the next colon (or the end) is the
/// product id; anything after a second colon is ignored.
pub open spec fn spec_parse_ident(s: Seq<char>) -> Option<(u16, u16)> {
    match first_colon(s) {
        None => None,
        Some(i) => {
            let vid_part = s.take(i);
            let rest = s.skip(i + 1);
            let pid_part = match first_colon(rest) {
                Some(j) => rest.take(j),
                None => rest,
            };
            match (spec_parse_hex16(vid_part), spec_parse_hex16(pid_part)) {
                (Some(v), Some(p)) => Some((v, p)),
                _ => None,
            }
        },
    }
}

/// [`UsbDevice::from_str`] as a function of the character sequence.
pub open spec fn spec_from_str(s: Seq<char>) -> Result<UsbDevice, ()> {
    match spec_parse_ident(s) {
        Some((v, p)) => Ok(UsbDevice { vid: v, pid: p }),
        None => Err(()),
    }
}

/// A hex digit character is a hex digit, is not a colon, and reads back as
/// its value.
proof fn lemma_hex_digit_char(d: int)
    requires
        0 <= d < 16,
    ensures
        is_hex_digit(hex_digit_char(d)),
        hex_digit_char(d) != ':',
        hex_digit_value(hex_digit_char(d)) == d,
{
}

/// Executable hex digit of a value below sixteen.
fn hex_digit(d: u8) -> (c: char)
    requires
        d < 16,
    ensures
        c == hex_digit_char(d as int),
{
    match d {
        0 => '0',
        1 => '1',
        2 => '2',
        3 => '3',
        4 => '4',
        5 => '5',
        6 => '6',
        7 => '7',
        8 => '8',
        9 => '9',
        10 => 'a',
        11 => 'b',
        12 => 'c',
        13 => 'd',
        14 => 'e',
        _ => 'f',
    }
}

/// Value of a hex digit character, or `None` for any other character.
fn hex_value(c: char) -> (r: Option<u8>)
    ensures
        r is Some <==> is_hex_digit(c),
        r matches Some(v) ==> v as int == hex_digit_value(c) && v < 16,
{
    let u = c as u32;
    if u >= 48 && u <= 57 {
        Some((u - 48) as u8)
    } else if u >= 97 && u <= 102 {
        Some((u - 97 + 10) as u8)
    } else if u >= 65 && u <= 70 {
        Some((u - 65 + 10) as u8)
    } else {
        None
    }
}

/// Appends the four hex digits of a value onto a string.
fn push_hex4(s: &mut String, v: u16)
    ensures
        final(s)@ == old(s)@ + spec_hex4(v as int),
{
    let d0 = ((v / 4096) % 16) as u8;
    let d1 = ((v / 256) % 16) as u8;
    let d2 = ((v / 16) % 16) as u8;
    let d3 = (v % 16) as u8;
    push_char(s, hex_digit(d0));
    push_char(s, hex_digit(d1));
    push_char(s, hex_digit(d2));
    push_char(s, hex_digit(d3));
    proof {
        assert(final(s)@ =~= old(s)@ + spec_hex4(v as int));
    }
}

impl UsbDevice {
    /// The canonical `"vid:pid"` text form of this identity.
    pub fn to_string(&self) -> (r: String)
        ensures
            r@ == spec_ident_string(self.vid, self.pid),
    {
        let mut s = String::new();
        push_hex4(&mut s, self.vid);
        push_char(&mut s, ':');
        push_hex4(&mut s, self.pid);
        proof {
            assert(s@ =~= spec_ident_string(self.vid, self.pid));
        }
        s
    }

    /// Parses a `"vid:pid"` identity back from its text form, per
    /// [`spec_from_str`]; any string without a colon, or whose parts are
    /// not sixteen-bit hex values, is rejected.
    pub fn from_str(s: &str) -> (r: Result<UsbDevice, ()>)
        ensures
            r == spec_from_str(s@),
    {
        let n = s.unicode_len();
        let mut cs: Vec<char> = Vec::new();
        let mut i: usize = 0;
        while i < n
            invariant
                i <= n,
                n == s@.len(),
                cs@ =~= s@.take(i as int),
            decreases n - i,
        {
            cs.push(s.get_char(i));
            i += 1;
            proof {
                assert(cs@ =~= s@.take(i as int));
            }
        }
        proof {
            assert(cs@ =~= s@);
        }
        // Find the first colon.
        let mut ci: usize = 0;
        while ci < n && cs[ci] != ':'
            invariant
                ci <= n,
                n == cs@.len(),
                cs@ == s@,
                forall|k: int| 0 <= k < ci ==> s@[k] != ':',
            decreases n - ci,
        {
            ci += 1;
        }
        if ci == n {
            proof {
                lemma_first_colon_none(s@);
            }
            return Err(());
        }
        proof {
            lemma_first_colon_at(s@, ci as int);
        }
        // Find the end of the product-id part: the next colon or the end.
        let mut cj: usize = ci + 1;
        while cj < n && cs[cj] != ':'
            invariant
                ci + 1 <= cj <= n,
                n == cs@.len(),
                cs@ == s@,
                forall|k: int| ci + 1 <= k < cj ==> s@[k] != ':',
            decreases n - cj,
        {
            cj += 1;
        }
        let ghost rest = s@.skip(ci as int + 1);
        proof {
            if cj == n {
                lemma_first_colon_none(rest);
            } else {
                lemma_first_colon_at(rest, cj - ci - 1);
            }
            assert(rest.take(cj - ci - 1) =~= s@.subrange(ci as int + 1, cj as int));
        }
        let vid = match parse_hex16(&cs, 0, ci) {
            Some(v) => v,
            None => {
                return Err(());
            },
        };
        let pid = match parse_hex16(&cs, ci + 1, cj) {
            Some(v) => v,
            None => {
                return Err(());
            },
        };
        Ok(UsbDevice { vid, pid })
    }
}

/// The first colon stands where the scan stopped.
proof fn lemma_first_colon_at(s: Seq<char>, i: int)
    requires
        0 <= i < s.len(),
        forall|k: int| 0 <= k < i ==> s[k] != ':',
        s[i] == ':',
    ensures
        first_colon(s) == Some(i),
    decreases i,
{
    if i == 0 {
    } else {
        assert forall|k: int| 0 <= k < i - 1 implies s.skip(1)[k] != ':' by {
            assert(s.skip(1)[k] == s[k + 1]);
        }
        lemma_first_colon_at(s.skip(1), i - 1);
    }
}

/// A sequence without a colon has no first colon.
proof fn lemma_first_colon_none(s: Seq<char>)
    requires
        forall|k: int| 0 <= k < s.len() ==> s[k] != ':',
    ensures
        first_colon(s) is None,
    decreases s.len(),
{
    if s.len() > 0 {
        assert forall|k: int| 0 <= k < s.skip(1).len() implies s.skip(1)[k] != ':' by {
            assert(s.skip(1)[k] == s[k + 1]);
        }
        lemma_first_colon_none(s.skip(1));
    }
}

/// Reads the hex value of the character range `[from, to)`, per
/// [`spec_parse_hex16`] on that range.
fn parse_hex16(cs: &Vec<char>, from: usize, to: usize) -> (r: Option<u16>)
    requires
        from <= to <= cs@.len(),
    ensures
        r == spec_parse_hex16(cs@.subrange(from as int, to as int)),
{
    let ghost part = cs@.subrange(from as int, to as int);
    if from == to {
        return None;
    }
    proof {
        assert(part.skip(0) =~= part);
    }
    let mut acc: u32 = 0;
    let mut j: usize = from;
    while j < to
        invariant
            from <= j <= to <= cs@.len(),
            part == cs@.subrange(from as int, to as int),
            acc <= 0xffff,
            hex_fold(part, 0) == hex_fold(part.skip(j - from), acc as int),
        decreases to - j,
    {
        let d = match hex_value(cs[j]) {
            Some(d) => d,
            None => {
                proof {
                    assert(part.skip(j - from)[0] == cs@[j as int]);
                }
                return None;
            },
        };
        proof {
            assert(part.skip(j - from)[0] == cs@[j as int]);
        }
        let next = acc * 16 + d as u32;
        if next > 0xffff {
            return None;
        }
        proof {
            assert(part.skip(j - from).skip(1) =~= part.skip(j + 1 - from));
        }
        acc = next;
        j += 1;
    }
    proof {
        assert(part.skip(to - from) =~= Seq::<char>::empty());
    }
    Some(acc as u16)
}

/// Formatting an identity and parsing it back returns the same identity,
/// and parsing never mixes two identities: the text form is injective.
pub proof fn lemma_ident_round_trip(vid: u16, pid: u16)
    ensures
        spec_from_str(spec_ident_string(vid, pid)) == Ok::<UsbDevice, ()>(UsbDevice { vid, pid }),
{
    let h1 = spec_hex4(vid as int);
    let h2 = spec_hex4(pid as int);
    let s = spec_ident_string(vid, pid);
    lemma_hex4_digits(vid as int);
    lemma_hex4_digits(pid as int);
    assert forall|k: int| 0 <= k < 4 implies s[k] != ':' by {
        assert(s[k] == h1[k]);
    }
    assert(s[4] == ':');
    lemma_first_colon_at(s, 4);
    let rest = s.skip(5);
    assert(rest =~= h2);
    lemma_first_colon_none(h2);
    assert(s.take(4) =~= h1);
    lemma_hex4_value(vid);
    lemma_hex4_value(pid);
}

/// Every character of the four-digit hex form is a hex digit other than a
/// colon.
proof fn lemma_hex4_digits(v: int)
    requires
        0 <= v,
    ensures
        forall|k: int| 0 <= k < 4 ==> is_hex_digit(#[trigger] spec_hex4(v)[k]),
        forall|k: int| 0 <= k < 4 ==> #[trigger] spec_hex4(v)[k] != ':',
{
    vstd::arithmetic::div_mod::lemma_mod_bound(v / 4096, 16);
    vstd::arithmetic::div_mod::lemma_mod_bound(v / 256, 16);
    vstd::arithmetic::div_mod::lemma_mod_bound(v / 16, 16);
    vstd::arithmetic::div_mod::lemma_mod_bound(v, 16);
    vstd::arithmetic::div_mod::lemma_div_pos_is_pos(v, 4096);
    vstd::arithmetic::div_mod::lemma_div_pos_is_pos(v, 256);
    vstd::arithmetic::div_mod::lemma_div_pos_is_pos(v, 16);
    assert forall|k: int| 0 <= k < 4 implies is_hex_digit(#[trigger] spec_hex4(v)[k])
        && spec_hex4(v)[k] != ':' by {
        if k == 0 {
            lemma_hex_digit_char((v / 4096) % 16);
        } else if k == 1 {
            lemma_hex_digit_char((v / 256) % 16);
        } else if k == 2 {
            lemma_hex_digit_char((v / 16) % 16);
        } else {
            lemma_hex_digit_char(v % 16);
        }
    }
}

/// The four-digit hex form folds back to the value it was made from.
proof fn lemma_hex4_value(v: u16)
    ensures
        spec_parse_hex16(spec_hex4(v as int)) == Some(v),
{
    let x = v as int;
    let h = spec_hex4(x);
    let d0 = (x / 4096) % 16;
    let d1 = (x / 256) % 16;
    let d2 = (x / 16) % 16;
    let d3 = x % 16;
    lemma_hex4_digits(x);
    vstd::arithmetic::div_mod::lemma_div_is_ordered(x, 0xffff, 4096);
    vstd::arithmetic::div_mod::lemma_div_is_ordered(x, 0xffff, 256);
    vstd::arithmetic::div_mod::lemma_div_is_ordered(x, 0xffff, 16);
    vstd::arithmetic::div_mod::lemma_div_pos_is_pos(x, 4096);
    vstd::arithmetic::div_mod::lemma_div_pos_is_pos(x, 256);
    vstd::arithmetic::div_mod::lemma_div_pos_is_pos(x, 16);
    vstd::arithmetic::div_mod::lemma_mod_bound(x, 16);
    vstd::arithmetic::div_mod::lemma_mod_bound(x / 16, 16);
    vstd::arithmetic::div_mod::lemma_mod_bound(x / 256, 16);
    // The high quotient is already below sixteen, so its last hex digit is
    // itself.
    assert(x / 4096 < 16);
    vstd::arithmetic::div_mod::lemma_small_mod((x / 4096) as nat, 16);
    assert(d0 == x / 4096);
    // Rebuild the value from its digits, one division step at a time.
    vstd::arithmetic::div_mod::lemma_div_denominator(x, 16, 16);
    vstd::arithmetic::div_mod::lemma_div_denominator(x, 256, 16);
    assert(x / 16 / 16 == x / 256);
    assert(x / 256 / 16 == x / 4096);
    vstd::arithmetic::div_mod::lemma_fundamental_div_mod(x, 16);
    vstd::arithmetic::div_mod::lemma_fundamental_div_mod(x / 16, 16);
    vstd::arithmetic::div_mod::lemma_fundamental_div_mod(x / 256, 16);
    assert(x / 256 == d0 * 16 + d1);
    assert(x / 16 == (d0 * 16 + d1) * 16 + d2);
    assert(x == ((d0 * 16 + d1) * 16 + d2) * 16 + d3);
    // Unfold the fold over the four digit characters.
    lemma_hex_digit_char(d0);
    lemma_hex_digit_char(d1);
    lemma_hex_digit_char(d2);
    lemma_hex_digit_char(d3);
    let h1 = h.skip(1);
    let h2 = h1.skip(1);
    let h3 = h2.skip(1);
    assert(h1 =~= seq![hex_digit_char(d1), hex_digit_char(d2), hex_digit_char(d3)]);
    assert(h2 =~= seq![hex_digit_char(d2), hex_digit_char(d3)]);
    assert(h3 =~= seq![hex_digit_char(d3)]);
    assert(h3.skip(1) =~= Seq::<char>::empty());
    assert(hex_fold(h, 0) == hex_fold(h1, d0));
    assert(hex_fold(h1, d0) == hex_fold(h2, d0 * 16 + d1));
    assert(hex_fold(h2, d0 * 16 + d1) == hex_fold(h3, (d0 * 16 + d1) * 16 + d2));
    assert(hex_fold(h3, (d0 * 16 + d1) * 16 + d2) == hex_fold(
        h3.skip(1),
        ((d0 * 16 + d1) * 16 + d2) * 16 + d3,
    ));
    assert(hex_fold(h, 0) == Some(x));
}

} // verus!
