//! Key names to key codes, and the default keys.

use std::collections::HashSet;
use vstd::prelude::*;
use vstd::std_specs::hash::group_hash_axioms;

verus! {

broadcast use group_hash_axioms;

// Linux input event codes (include/uapi/linux/input-event-codes.h) of the
// keys that can be named on the command line.
pub const KEY_DOT: u16 = 52;
pub const KEY_SLASH: u16 = 53;
pub const KEY_SPACE: u16 = 57;
pub const KEY_ENTER: u16 = 28;
pub const KEY_A: u16 = 30;
pub const KEY_B: u16 = 48;
pub const KEY_C: u16 = 46;
pub const KEY_D: u16 = 32;
pub const KEY_E: u16 = 18;
pub const KEY_F: u16 = 33;
pub const KEY_G: u16 = 34;
pub const KEY_H: u16 = 35;
pub const KEY_I: u16 = 23;
pub const KEY_J: u16 = 36;
pub const KEY_K: u16 = 37;
pub const KEY_L: u16 = 38;
pub const KEY_M: u16 = 50;
pub const KEY_N: u16 = 49;
pub const KEY_O: u16 = 24;
pub const KEY_P: u16 = 25;
pub const KEY_Q: u16 = 16;
pub const KEY_R: u16 = 19;
pub const KEY_S: u16 = 31;
pub const KEY_T: u16 = 20;
pub const KEY_U: u16 = 22;
pub const KEY_V: u16 = 47;
pub const KEY_W: u16 = 17;
pub const KEY_X: u16 = 45;
pub const KEY_Y: u16 = 21;
pub const KEY_Z: u16 = 44;
pub const KEY_ESC: u16 = 1;
pub const KEY_TAB: u16 = 15;
pub const KEY_LEFTSHIFT: u16 = 42;
pub const KEY_RIGHTSHIFT: u16 = 54;
pub const KEY_LEFTCTRL: u16 = 29;
pub const KEY_RIGHTCTRL: u16 = 97;
pub const KEY_LEFTALT: u16 = 56;
pub const KEY_RIGHTALT: u16 = 100;
pub const KEY_CAPSLOCK: u16 = 58;
pub const KEY_1: u16 = 2;
pub const KEY_2: u16 = 3;
pub const KEY_3: u16 = 4;
pub const KEY_4: u16 = 5;
pub const KEY_5: u16 = 6;
pub const KEY_6: u16 = 7;
pub const KEY_7: u16 = 8;
pub const KEY_8: u16 = 9;
pub const KEY_9: u16 = 10;
pub const KEY_0: u16 = 11;

/// The code of the left mouse button.
pub const BTN_LEFT: u16 = 272;

/// The code named by an upper-case key name without the `KEY_` prefix.
pub open spec fn key_code_for_name(name: Seq<char>) -> Option<u16> {
    if name == "DOT"@ {
        Some(KEY_DOT)
    } else if name == "SLASH"@ {
        Some(KEY_SLASH)
    } else if name == "SPACE"@ {
        Some(KEY_SPACE)
    } else if name == "ENTER"@ {
        Some(KEY_ENTER)
    } else if name == "A"@ {
        Some(KEY_A)
    } else if name == "B"@ {
        Some(KEY_B)
    } else if name == "C"@ {
        Some(KEY_C)
    } else if name == "D"@ {
        Some(KEY_D)
    } else if name == "E"@ {
        Some(KEY_E)
    } else if name == "F"@ {
        Some(KEY_F)
    } else if name == "G"@ {
        Some(KEY_G)
    } else if name == "H"@ {
        Some(KEY_H)
    } else if name == "I"@ {
        Some(KEY_I)
    } else if name == "J"@ {
        Some(KEY_J)
    } else if name == "K"@ {
        Some(KEY_K)
    } else if name == "L"@ {
        Some(KEY_L)
    } else if name == "M"@ {
        Some(KEY_M)
    } else if name == "N"@ {
        Some(KEY_N)
    } else if name == "O"@ {
        Some(KEY_O)
    } else if name == "P"@ {
        Some(KEY_P)
    } else if name == "Q"@ {
        Some(KEY_Q)
    } else if name == "R"@ {
        Some(KEY_R)
    } else if name == "S"@ {
        Some(KEY_S)
    } else if name == "T"@ {
        Some(KEY_T)
    } else if name == "U"@ {
        Some(KEY_U)
    } else if name == "V"@ {
        Some(KEY_V)
    } else if name == "W"@ {
        Some(KEY_W)
    } else if name == "X"@ {
        Some(KEY_X)
    } else if name == "Y"@ {
        Some(KEY_Y)
    } else if name == "Z"@ {
        Some(KEY_Z)
    } else if name == "ESC"@ {
        Some(KEY_ESC)
    } else if name == "TAB"@ {
        Some(KEY_TAB)
    } else if name == "LEFTSHIFT"@ {
        Some(KEY_LEFTSHIFT)
    } else if name == "RIGHTSHIFT"@ {
        Some(KEY_RIGHTSHIFT)
    } else if name == "LEFTCTRL"@ {
        Some(KEY_LEFTCTRL)
    } else if name == "RIGHTCTRL"@ {
        Some(KEY_RIGHTCTRL)
    } else if name == "LEFTALT"@ {
        Some(KEY_LEFTALT)
    } else if name == "RIGHTALT"@ {
        Some(KEY_RIGHTALT)
    } else if name == "CAPSLOCK"@ {
        Some(KEY_CAPSLOCK)
    } else if name == "1"@ {
        Some(KEY_1)
    } else if name == "2"@ {
        Some(KEY_2)
    } else if name == "3"@ {
        Some(KEY_3)
    } else if name == "4"@ {
        Some(KEY_4)
    } else if name == "5"@ {
        Some(KEY_5)
    } else if name == "6"@ {
        Some(KEY_6)
    } else if name == "7"@ {
        Some(KEY_7)
    } else if name == "8"@ {
        Some(KEY_8)
    } else if name == "9"@ {
        Some(KEY_9)
    } else if name == "0"@ {
        Some(KEY_0)
    } else {
        None
    }
}

/// The characters of `s`, in order.
fn chars_of(s: &str) -> (chars: Vec<char>)
    ensures
        chars@ == s@,
{
    let mut chars: Vec<char> = Vec::new();
    for c in it: s.chars()
        invariant
            it.seq() == s@,
            chars@ == s@.take(it.index()),
    {
        chars.push(c);
        proof {
            assert(chars@ =~= s@.take(it.index() + 1));
        }
    }
    assert(chars@ =~= s@);
    chars
}

/// Whether `chars` spells exactly the string `lit`.
fn chars_match(chars: &Vec<char>, lit: &str) -> (r: bool)
    ensures
        r == (chars@ == lit@),
{
    let mut i: usize = 0;
    for c in it: lit.chars()
        invariant
            it.seq() == lit@,
            i == it.index(),
            i <= chars@.len(),
            chars@.take(i as int) == lit@.take(i as int),
    {
        if i >= chars.len() {
            assert(chars@.len() < lit@.len());
            return false;
        }
        if chars[i] != c {
            assert(chars@[i as int] != lit@[i as int]);
            return false;
        }
        i = i + 1;
        proof {
            assert(chars@.take(i as int) =~= lit@.take(i as int));
        }
    }
    proof {
        if i == chars.len() {
            assert(chars@ =~= chars@.take(i as int));
            assert(lit@ =~= lit@.take(i as int));
        }
    }
    i == chars.len()
}

/// Maps an upper-case key name (without the `KEY_` prefix) to its key code;
/// names outside the table give `None`.
pub fn key_code_for_upper_name(name: &str) -> (code: Option<u16>)
    ensures
        code == key_code_for_name(name@),
{
    let chars = chars_of(name);
    if chars_match(&chars, "DOT") {
        Some(KEY_DOT)
    } else if chars_match(&chars, "SLASH") {
        Some(KEY_SLASH)
    } else if chars_match(&chars, "SPACE") {
        Some(KEY_SPACE)
    } else if chars_match(&chars, "ENTER") {
        Some(KEY_ENTER)
    } else if chars_match(&chars, "A") {
        Some(KEY_A)
    } else if chars_match(&chars, "B") {
        Some(KEY_B)
    } else if chars_match(&chars, "C") {
        Some(KEY_C)
    } else if chars_match(&chars, "D") {
        Some(KEY_D)
    } else if chars_match(&chars, "E") {
        Some(KEY_E)
    } else if chars_match(&chars, "F") {
        Some(KEY_F)
    } else if chars_match(&chars, "G") {
        Some(KEY_G)
    } else if chars_match(&chars, "H") {
        Some(KEY_H)
    } else if chars_match(&chars, "I") {
        Some(KEY_I)
    } else if chars_match(&chars, "J") {
        Some(KEY_J)
    } else if chars_match(&chars, "K") {
        Some(KEY_K)
    } else if chars_match(&chars, "L") {
        Some(KEY_L)
    } else if chars_match(&chars, "M") {
        Some(KEY_M)
    } else if chars_match(&chars, "N") {
        Some(KEY_N)
    } else if chars_match(&chars, "O") {
        Some(KEY_O)
    } else if chars_match(&chars, "P") {
        Some(KEY_P)
    } else if chars_match(&chars, "Q") {
        Some(KEY_Q)
    } else if chars_match(&chars, "R") {
        Some(KEY_R)
    } else if chars_match(&chars, "S") {
        Some(KEY_S)
    } else if chars_match(&chars, "T") {
        Some(KEY_T)
    } else if chars_match(&chars, "U") {
        Some(KEY_U)
    } else if chars_match(&chars, "V") {
        Some(KEY_V)
    } else if chars_match(&chars, "W") {
        Some(KEY_W)
    } else if chars_match(&chars, "X") {
        Some(KEY_X)
    } else if chars_match(&chars, "Y") {
        Some(KEY_Y)
    } else if chars_match(&chars, "Z") {
        Some(KEY_Z)
    } else if chars_match(&chars, "ESC") {
        Some(KEY_ESC)
    } else if chars_match(&chars, "TAB") {
        Some(KEY_TAB)
    } else if chars_match(&chars, "LEFTSHIFT") {
        Some(KEY_LEFTSHIFT)
    } else if chars_match(&chars, "RIGHTSHIFT") {
        Some(KEY_RIGHTSHIFT)
    } else if chars_match(&chars, "LEFTCTRL") {
        Some(KEY_LEFTCTRL)
    } else if chars_match(&chars, "RIGHTCTRL") {
        Some(KEY_RIGHTCTRL)
    } else if chars_match(&chars, "LEFTALT") {
        Some(KEY_LEFTALT)
    } else if chars_match(&chars, "RIGHTALT") {
        Some(KEY_RIGHTALT)
    } else if chars_match(&chars, "CAPSLOCK") {
        Some(KEY_CAPSLOCK)
    } else if chars_match(&chars, "1") {
        Some(KEY_1)
    } else if chars_match(&chars, "2") {
        Some(KEY_2)
    } else if chars_match(&chars, "3") {
        Some(KEY_3)
    } else if chars_match(&chars, "4") {
        Some(KEY_4)
    } else if chars_match(&chars, "5") {
        Some(KEY_5)
    } else if chars_match(&chars, "6") {
        Some(KEY_6)
    } else if chars_match(&chars, "7") {
        Some(KEY_7)
    } else if chars_match(&chars, "8") {
        Some(KEY_8)
    } else if chars_match(&chars, "9") {
        Some(KEY_9)
    } else if chars_match(&chars, "0") {
        Some(KEY_0)
    } else {
        None
    }
}

/// Whether `c` has the Unicode `White_Space` property, as `char::is_whitespace`
/// tests it: U+0009 to U+000D, U+0020, U+0085, U+00A0, U+1680, U+2000 to
/// U+200A, U+2028, U+2029, U+202F, U+205F and U+3000.
pub open spec fn is_white_space_char(c: char) -> bool {
    let x = c as int;
    ||| 0x9 <= x <= 0xD
    ||| x == 0x20
    ||| x == 0x85
    ||| x == 0xA0
    ||| x == 0x1680
    ||| 0x2000 <= x <= 0x200A
    ||| x == 0x2028
    ||| x == 0x2029
    ||| x == 0x202F
    ||| x == 0x205F
    ||| x == 0x3000
}

/// Whether `c` is white space in the sense of `str::trim`.
pub fn is_white_space(c: char) -> (r: bool)
    ensures
        r == is_white_space_char(c),
{
    let x = c as u32;
    (0x9 <= x && x <= 0xD) || x == 0x20 || x == 0x85 || x == 0xA0 || x == 0x1680 || (0x2000 <= x
        && x <= 0x200A) || x == 0x2028 || x == 0x2029 || x == 0x202F || x == 0x205F || x == 0x3000
}

/// Names what `str::to_uppercase` returns for a string that is not all ASCII:
/// its Unicode upper-case mapping.
pub uninterp spec fn spec_to_uppercase(s: Seq<char>) -> Seq<char>;

/// Whether every character of `s` is ASCII.
pub open spec fn is_ascii_chars(s: Seq<char>) -> bool {
    forall|i: int| 0 <= i < s.len() ==> (#[trigger] s[i] as int) < 0x80
}

/// The upper-case form of an ASCII character: `a` to `z` become `A` to `Z`,
/// every other character stays.
pub open spec fn ascii_upper_char(c: char) -> char {
    if 0x61 <= (c as int) <= 0x7A {
        ((c as int) - 0x20) as char
    } else {
        c
    }
}

/// `s` with each ASCII lower-case letter made upper-case.
pub open spec fn ascii_upper(s: Seq<char>) -> Seq<char> {
    Seq::new(s.len(), |i: int| ascii_upper_char(s[i]))
}

/// The upper-case form of `s`: letter by letter for an all-ASCII string, the
/// Unicode mapping otherwise.
pub open spec fn upper_case_of(s: Seq<char>) -> Seq<char> {
    if is_ascii_chars(s) {
        ascii_upper(s)
    } else {
        spec_to_uppercase(s)
    }
}

/// Calls `str::to_uppercase`. For an all-ASCII string the result is the string
/// with `a` to `z` made `A` to `Z`; for any other string the contract only
/// names the result.
#[verifier::external_body]
fn to_uppercase(s: &str) -> (r: String)
    ensures
        is_ascii_chars(s@) ==> r@ == ascii_upper(s@),
        !is_ascii_chars(s@) ==> r@ == spec_to_uppercase(s@),
{
    s.to_uppercase()
}

/// Calls `String::push`, which appends the character to the end of the string.
#[verifier::external_body]
fn push_char(s: &mut String, c: char)
    ensures
        final(s)@ == old(s)@.push(c),
{
    s.push(c);
}

/// `s` without its leading white space.
pub open spec fn trim_start(s: Seq<char>) -> Seq<char>
    decreases s.len(),
{
    if s.len() > 0 && is_white_space_char(s[0]) {
        trim_start(s.drop_first())
    } else {
        s
    }
}

/// `s` without its trailing white space.
pub open spec fn trim_end(s: Seq<char>) -> Seq<char>
    decreases s.len(),
{
    if s.len() > 0 && is_white_space_char(s.last()) {
        trim_end(s.drop_last())
    } else {
        s
    }
}

/// `s` without leading and trailing white space, as `str::trim` gives it.
pub open spec fn trim_white_space(s: Seq<char>) -> Seq<char> {
    trim_end(trim_start(s))
}

/// `s` with every leading occurrence of the non-empty `prefix` removed, one
/// after another.
pub open spec fn strip_prefixes(s: Seq<char>, prefix: Seq<char>) -> Seq<char>
    decreases s.len(),
{
    if 0 < prefix.len() <= s.len() && s.subrange(0, prefix.len() as int) == prefix {
        strip_prefixes(s.skip(prefix.len() as int), prefix)
    } else {
        s
    }
}

/// The characters of `chars` from `lo` up to `hi`.
fn copy_range(chars: &Vec<char>, lo: usize, hi: usize) -> (r: Vec<char>)
    requires
        lo <= hi <= chars@.len(),
    ensures
        r@ == chars@.subrange(lo as int, hi as int),
{
    let mut r: Vec<char> = Vec::new();
    for i in lo..hi
        invariant
            lo <= hi <= chars@.len(),
            r@ == chars@.subrange(lo as int, i as int),
    {
        r.push(chars[i]);
        proof {
            assert(r@ =~= chars@.subrange(lo as int, i + 1));
        }
    }
    r
}

/// The string spelled by `chars`.
fn string_of(chars: &Vec<char>) -> (s: String)
    ensures
        s@ == chars@,
{
    let mut s = String::new();
    for i in 0..chars.len()
        invariant
            s@ == chars@.take(i as int),
    {
        push_char(&mut s, chars[i]);
        proof {
            assert(s@ =~= chars@.take(i + 1));
        }
    }
    assert(chars@.take(chars@.len() as int) =~= chars@);
    s
}

/// `chars` without leading and trailing white space.
fn trim_whitespace(chars: &Vec<char>) -> (r: Vec<char>)
    ensures
        r@ == trim_white_space(chars@),
{
    let n = chars.len();
    let mut i: usize = 0;
    proof {
        assert(chars@.skip(0) =~= chars@);
    }
    while i < n && is_white_space(chars[i])
        invariant
            n == chars@.len(),
            i <= n,
            trim_start(chars@) == trim_start(chars@.skip(i as int)),
        decreases n - i,
    {
        proof {
            assert(chars@.skip(i as int).drop_first() =~= chars@.skip(i + 1));
        }
        i = i + 1;
    }
    proof {
        assert(trim_start(chars@) == chars@.skip(i as int));
        assert(chars@.skip(i as int) =~= chars@.subrange(i as int, n as int));
    }
    let mut j: usize = n;
    while j > i && is_white_space(chars[j - 1])
        invariant
            n == chars@.len(),
            i <= j <= n,
            trim_start(chars@) == chars@.subrange(i as int, n as int),
            trim_white_space(chars@) == trim_end(chars@.subrange(i as int, j as int)),
        decreases j,
    {
        proof {
            assert(chars@.subrange(i as int, j as int).drop_last() =~= chars@.subrange(
                i as int,
                j - 1,
            ));
        }
        j = j - 1;
    }
    copy_range(chars, i, j)
}

/// `chars` with every leading `KEY_` removed, one after another.
fn strip_key_prefixes(chars: &Vec<char>) -> (r: Vec<char>)
    ensures
        r@ == strip_prefixes(chars@, "KEY_"@),
{
    proof {
        reveal_strlit("KEY_");
    }
    let n = chars.len();
    let mut i: usize = 0;
    proof {
        assert(chars@.skip(0) =~= chars@);
    }
    while n - i >= 4 && chars[i] == 'K' && chars[i + 1] == 'E' && chars[i + 2] == 'Y' && chars[i
        + 3] == '_'
        invariant
            n == chars@.len(),
            i <= n,
            strip_prefixes(chars@, "KEY_"@) == strip_prefixes(chars@.skip(i as int), "KEY_"@),
        decreases n - i,
    {
        proof {
            reveal_strlit("KEY_");
            let rest = chars@.skip(i as int);
            assert(rest.subrange(0, 4) =~= "KEY_"@);
            assert(rest.skip(4) =~= chars@.skip(i + 4));
        }
        i = i + 4;
    }
    proof {
        let rest = chars@.skip(i as int);
        if 4 <= rest.len() && rest.subrange(0, 4) == "KEY_"@ {
            assert(rest.subrange(0, 4)[0] == 'K');
            assert(rest.subrange(0, 4)[1] == 'E');
            assert(rest.subrange(0, 4)[2] == 'Y');
            assert(rest.subrange(0, 4)[3] == '_');
        }
        assert(rest =~= chars@.subrange(i as int, n as int));
    }
    copy_range(chars, i, n)
}

/// The form in which a key name is looked up in the table: trimmed, stripped
/// of any leading `KEY_` prefixes, and upper-cased.
pub open spec fn normalized_key_name(name: Seq<char>) -> Seq<char> {
    upper_case_of(strip_prefixes(trim_white_space(name), "KEY_"@))
}

/// The key codes named by `names`; unknown names contribute nothing.
pub open spec fn parsed_key_codes(names: Seq<String>) -> Set<u16> {
    Set::new(
        |c: u16|
            exists|i: int|
                0 <= i < names.len() && #[trigger] key_code_for_name(normalized_key_name(names[i]@))
                    == Some(c),
    )
}

/// Maps a key name without the `KEY_` prefix, in any case, to its key code.
pub fn key_name_to_code(name: &str) -> (code: Option<u16>)
    ensures
        code == key_code_for_name(upper_case_of(name@)),
{
    let upper = to_uppercase(name);
    key_code_for_upper_name(upper.as_str())
}

/// Maps one key name as given on the command line to its key code: surrounding
/// white space and any `KEY_` prefixes are ignored and the rest is matched
/// case-insensitively.
pub fn key_code_of_name(name: &str) -> (code: Option<u16>)
    ensures
        code == key_code_for_name(normalized_key_name(name@)),
{
    let chars = chars_of(name);
    let trimmed = trim_whitespace(&chars);
    let stripped = strip_key_prefixes(&trimmed);
    let stripped_name = string_of(&stripped);
    key_name_to_code(stripped_name.as_str())
}

/// Parses key names (e.g. "KEY_DOT", "KEY_SLASH" or "DOT", "slash") into key
/// codes. Surrounding white space and any `KEY_` prefixes are ignored, the
/// rest is matched case-insensitively; unknown names are skipped.
pub fn parse_key_names(key_names: &[String]) -> (key_codes: HashSet<u16>)
    ensures
        key_codes@ == parsed_key_codes(key_names@),
{
    let mut key_codes: HashSet<u16> = HashSet::new();
    let n = key_names.len();
    for i in 0..n
        invariant
            n == key_names@.len(),
            key_codes@ == parsed_key_codes(key_names@.take(i as int)),
    {
        let name: &String = &key_names[i];
        let code = key_code_of_name(name.as_str());
        let ghost prev = key_codes@;
        if let Some(c) = code {
            key_codes.insert(c);
        }
        proof {
            let taken = key_names@.take(i + 1);
            assert(taken[i as int] == key_names@[i as int]);
            assert(code == key_code_for_name(normalized_key_name(taken[i as int]@)));
            assert forall|c: u16| #[trigger] key_codes@.contains(c) == parsed_key_codes(taken).contains(c) by {
                if key_codes@.contains(c) {
                    if !prev.contains(c) {
                        assert(key_code_for_name(normalized_key_name(taken[i as int]@)) == Some(c));
                    } else {
                        let j = choose|j: int|
                            0 <= j < i && #[trigger] key_code_for_name(
                                normalized_key_name(key_names@.take(i as int)[j]@),
                            ) == Some(c);
                        assert(taken[j] == key_names@.take(i as int)[j]);
                    }
                }
                if parsed_key_codes(taken).contains(c) {
                    let j = choose|j: int|
                        0 <= j < i + 1 && #[trigger] key_code_for_name(normalized_key_name(taken[j]@))
                            == Some(c);
                    if j < i {
                        assert(key_names@.take(i as int)[j] == taken[j]);
                        assert(key_code_for_name(normalized_key_name(key_names@.take(i as int)[j]@))
                            == Some(c));
                        assert(prev.contains(c));
                    }
                }
            }
            assert(key_codes@ =~= parsed_key_codes(taken));
        }
    }
    assert(key_names@.take(n as int) =~= key_names@);
    key_codes
}

/// The default keys to map: KEY_DOT and KEY_SLASH.
pub fn default_key_names() -> (names: Vec<String>)
    ensures
        names@.len() == 2,
        names@[0]@ == "KEY_DOT"@,
        names@[1]@ == "KEY_SLASH"@,
{
    vec!["KEY_DOT".to_owned(), "KEY_SLASH".to_owned()]
}

/// The `KEY_` prefix is optional: a name with it and the same name without it
/// are looked up alike.
pub proof fn lemma_key_prefix_optional(name: Seq<char>)
    ensures
        strip_prefixes("KEY_"@ + name, "KEY_"@) == strip_prefixes(name, "KEY_"@),
{
    reveal_strlit("KEY_");
    let with_prefix = "KEY_"@ + name;
    assert(with_prefix.subrange(0, 4) =~= "KEY_"@);
    assert(with_prefix.skip(4) =~= name);
}

/// Unknown names are skipped: adding a name that is not in the table does not
/// change the parsed key codes.
pub proof fn lemma_unknown_name_skipped(names: Seq<String>, unknown: String)
    requires
        key_code_for_name(normalized_key_name(unknown@)) is None,
    ensures
        parsed_key_codes(names.push(unknown)) == parsed_key_codes(names),
{
    let more = names.push(unknown);
    assert forall|c: u16| #[trigger] parsed_key_codes(more).contains(c) == parsed_key_codes(names).contains(c) by {
        if parsed_key_codes(more).contains(c) {
            let j = choose|j: int|
                0 <= j < more.len() && #[trigger] key_code_for_name(normalized_key_name(more[j]@)) == Some(c);
            assert(j < names.len());
            assert(more[j] == names[j]);
        }
        if parsed_key_codes(names).contains(c) {
            let j = choose|j: int|
                0 <= j < names.len() && #[trigger] key_code_for_name(normalized_key_name(names[j]@)) == Some(c);
            assert(more[j] == names[j]);
            assert(key_code_for_name(normalized_key_name(more[j]@)) == Some(c));
        }
    }
    assert(parsed_key_codes(more) =~= parsed_key_codes(names));
}

/// The order of the names does not matter, nor does naming a key twice:
/// the parsed codes depend only on the set of names given.
pub proof fn lemma_parse_depends_on_name_set(a: Seq<String>, b: Seq<String>)
    requires
        a.to_set() == b.to_set(),
    ensures
        parsed_key_codes(a) == parsed_key_codes(b),
{
    assert forall|c: u16| #[trigger] parsed_key_codes(a).contains(c) implies parsed_key_codes(b).contains(c) by {
        let j = choose|j: int|
            0 <= j < a.len() && #[trigger] key_code_for_name(normalized_key_name(a[j]@)) == Some(c);
        assert(a.to_set().contains(a[j]));
        assert(b.contains(a[j]));
        let k = choose|k: int| 0 <= k < b.len() && b[k] == a[j];
        assert(key_code_for_name(normalized_key_name(b[k]@)) == Some(c));
    }
    assert forall|c: u16| #[trigger] parsed_key_codes(b).contains(c) implies parsed_key_codes(a).contains(c) by {
        let j = choose|j: int|
            0 <= j < b.len() && #[trigger] key_code_for_name(normalized_key_name(b[j]@)) == Some(c);
        assert(b.to_set().contains(b[j]));
        assert(a.contains(b[j]));
        let k = choose|k: int| 0 <= k < a.len() && a[k] == b[j];
        assert(key_code_for_name(normalized_key_name(a[k]@)) == Some(c));
    }
    assert(parsed_key_codes(a) =~= parsed_key_codes(b));
}

/// Whether every character of `s` is white space.
pub open spec fn all_white_space(s: Seq<char>) -> bool {
    forall|i: int| 0 <= i < s.len() ==> is_white_space_char(#[trigger] s[i])
}

proof fn lemma_trim_start_skips_white_space(w: Seq<char>, s: Seq<char>)
    requires
        all_white_space(w),
    ensures
        trim_start(w + s) == trim_start(s),
    decreases w.len(),
{
    if w.len() > 0 {
        assert((w + s)[0] == w[0]);
        assert((w + s).drop_first() =~= w.drop_first() + s);
        lemma_trim_start_skips_white_space(w.drop_first(), s);
    } else {
        assert(w + s =~= s);
    }
}

proof fn lemma_trim_end_skips_white_space(s: Seq<char>, w: Seq<char>)
    requires
        all_white_space(w),
    ensures
        trim_end(s + w) == trim_end(s),
    decreases w.len(),
{
    if w.len() > 0 {
        assert((s + w).last() == w.last());
        assert((s + w).drop_last() =~= s + w.drop_last());
        lemma_trim_end_skips_white_space(s, w.drop_last());
    } else {
        assert(s + w =~= s);
    }
}

proof fn lemma_trim_start_append(s: Seq<char>, t: Seq<char>)
    ensures
        trim_start(s).len() > 0 ==> trim_start(s + t) == trim_start(s) + t,
        trim_start(s).len() == 0 ==> trim_start(s + t) == trim_start(t),
    decreases s.len(),
{
    if s.len() == 0 {
        assert(s + t =~= t);
    } else {
        assert((s + t)[0] == s[0]);
        if is_white_space_char(s[0]) {
            assert((s + t).drop_first() =~= s.drop_first() + t);
            lemma_trim_start_append(s.drop_first(), t);
        }
    }
}

proof fn lemma_trim_end_of_empty()
    ensures
        trim_end(Seq::<char>::empty()) == Seq::<char>::empty(),
{
}

/// Surrounding white space is ignored: adding white space before and after a
/// name does not change what it is looked up as.
pub proof fn lemma_white_space_ignored(before: Seq<char>, name: Seq<char>, after: Seq<char>)
    requires
        all_white_space(before),
        all_white_space(after),
    ensures
        trim_white_space(before + name + after) == trim_white_space(name),
        normalized_key_name(before + name + after) == normalized_key_name(name),
{
    assert(before + name + after =~= before + (name + after));
    lemma_trim_start_skips_white_space(before, name + after);
    lemma_trim_start_append(name, after);
    if trim_start(name).len() > 0 {
        lemma_trim_end_skips_white_space(trim_start(name), after);
    } else {
        lemma_trim_start_skips_white_space(after, Seq::<char>::empty());
        assert(after + Seq::<char>::empty() =~= after);
        assert(trim_start(name) =~= Seq::<char>::empty());
        lemma_trim_end_of_empty();
    }
}

/// Names are matched case-insensitively: names with the same upper-case form
/// map to the same code.
pub proof fn lemma_names_match_case_insensitively(a: Seq<char>, b: Seq<char>)
    requires
        upper_case_of(a) == upper_case_of(b),
    ensures
        key_code_for_name(upper_case_of(a)) == key_code_for_name(upper_case_of(b)),
{
}

/// Every code of the table fits the key mapper's bitsets, and no two names of
/// the table share a code.
pub proof fn lemma_table_codes(a: Seq<char>, b: Seq<char>)
    ensures
        key_code_for_name(a) matches Some(k) ==> k < crate::key_mapper::MAX_KEY,
        key_code_for_name(a) is Some && key_code_for_name(a) == key_code_for_name(b) ==> a == b,
{
}

/// ASCII letters are matched regardless of case: two ASCII names that differ
/// only in the case of their letters map to the same code.
pub proof fn lemma_ascii_case_ignored(a: Seq<char>, b: Seq<char>)
    requires
        a.len() == b.len(),
        is_ascii_chars(a),
        is_ascii_chars(b),
        forall|i: int| 0 <= i < a.len() ==> ascii_upper_char(#[trigger] a[i]) == ascii_upper_char(b[i]),
    ensures
        upper_case_of(a) == upper_case_of(b),
        key_code_for_name(upper_case_of(a)) == key_code_for_name(upper_case_of(b)),
{
    assert(ascii_upper(a) =~= ascii_upper(b));
}

/// The name that is looked up is the trimmed name without its `KEY_`
/// prefixes with every ASCII letter made upper-case: `a` to `z` become `A`
/// to `Z` and every other character stays, whatever the length of the name.
pub proof fn lemma_looked_up_name_is_upper_case(name: Seq<char>)
    requires
        is_ascii_chars(strip_prefixes(trim_white_space(name), "KEY_"@)),
    ensures
        ({
            let t = strip_prefixes(trim_white_space(name), "KEY_"@);
            let u = normalized_key_name(name);
            &&& u.len() == t.len()
            &&& forall|i: int|
                0 <= i < t.len() ==> {
                    &&& 0x61 <= (#[trigger] t[i] as int) <= 0x7A ==> (u[i] as int) == (t[i] as int) - 0x20
                    &&& !(0x61 <= (t[i] as int) <= 0x7A) ==> u[i] == t[i]
                    &&& !(0x61 <= (u[i] as int) <= 0x7A)
                }
        }),
{
}

/// Whether `c` and `d` are the same character up to the case of an ASCII
/// letter.
pub open spec fn same_up_to_case(c: char, d: char) -> bool {
    ||| c == d
    ||| 0x61 <= (c as int) <= 0x7A && (c as int) - (d as int) == 0x20
    ||| 0x61 <= (d as int) <= 0x7A && (d as int) - (c as int) == 0x20
}

/// `a` and `b` are ASCII names without `_` that differ at most in the case
/// of their letters.
pub open spec fn case_variants(a: Seq<char>, b: Seq<char>) -> bool {
    &&& a.len() == b.len()
    &&& forall|i: int|
        0 <= i < a.len() ==> {
            &&& (#[trigger] a[i] as int) < 0x80
            &&& (b[i] as int) < 0x80
            &&& a[i] != '_'
            &&& same_up_to_case(a[i], b[i])
        }
}

proof fn lemma_case_variants_chars(c: char, d: char)
    requires
        (c as int) < 0x80,
        (d as int) < 0x80,
        same_up_to_case(c, d),
    ensures
        is_white_space_char(c) == is_white_space_char(d),
        d != '_' <== c != '_',
        ascii_upper_char(c) == ascii_upper_char(d),
{
}

proof fn lemma_case_variants_drop_first(a: Seq<char>, b: Seq<char>)
    requires
        case_variants(a, b),
        a.len() > 0,
    ensures
        case_variants(a.drop_first(), b.drop_first()),
{
    assert forall|i: int| 0 <= i < a.len() - 1 implies {
        &&& (#[trigger] a.drop_first()[i] as int) < 0x80
        &&& (b.drop_first()[i] as int) < 0x80
        &&& a.drop_first()[i] != '_'
        &&& same_up_to_case(a.drop_first()[i], b.drop_first()[i])
    } by {
        assert(a.drop_first()[i] == a[i + 1]);
        assert(b.drop_first()[i] == b[i + 1]);
    }
}

proof fn lemma_case_variants_drop_last(a: Seq<char>, b: Seq<char>)
    requires
        case_variants(a, b),
        a.len() > 0,
    ensures
        case_variants(a.drop_last(), b.drop_last()),
{
    assert forall|i: int| 0 <= i < a.len() - 1 implies {
        &&& (#[trigger] a.drop_last()[i] as int) < 0x80
        &&& (b.drop_last()[i] as int) < 0x80
        &&& a.drop_last()[i] != '_'
        &&& same_up_to_case(a.drop_last()[i], b.drop_last()[i])
    } by {
        assert(a.drop_last()[i] == a[i]);
        assert(b.drop_last()[i] == b[i]);
    }
}

proof fn lemma_case_variants_trim_start(a: Seq<char>, b: Seq<char>)
    requires
        case_variants(a, b),
    ensures
        case_variants(trim_start(a), trim_start(b)),
    decreases a.len(),
{
    if a.len() > 0 {
        lemma_case_variants_chars(a[0], b[0]);
        if is_white_space_char(a[0]) {
            lemma_case_variants_drop_first(a, b);
            lemma_case_variants_trim_start(a.drop_first(), b.drop_first());
        }
    }
}

proof fn lemma_case_variants_trim_end(a: Seq<char>, b: Seq<char>)
    requires
        case_variants(a, b),
    ensures
        case_variants(trim_end(a), trim_end(b)),
    decreases a.len(),
{
    if a.len() > 0 {
        lemma_case_variants_chars(a.last(), b.last());
        if is_white_space_char(a.last()) {
            lemma_case_variants_drop_last(a, b);
            lemma_case_variants_trim_end(a.drop_last(), b.drop_last());
        }
    }
}

proof fn lemma_no_prefix_without_underscore(t: Seq<char>)
    requires
        forall|i: int| 0 <= i < t.len() ==> #[trigger] t[i] != '_',
    ensures
        strip_prefixes(t, "KEY_"@) == t,
{
    reveal_strlit("KEY_");
    if 4 <= t.len() && t.subrange(0, 4) == "KEY_"@ {
        assert(t.subrange(0, 4)[3] == '_');
        assert(t[3] == '_');
    }
}

/// Names are looked up regardless of the case of their letters: two ASCII
/// names without `_` that differ only in the case of letters (such as "z" and
/// "Z", or " Space" and "SPACE ") map to the same code.
pub proof fn lemma_letter_case_ignored(a: Seq<char>, b: Seq<char>)
    requires
        case_variants(a, b),
    ensures
        normalized_key_name(a) == normalized_key_name(b),
        key_code_for_name(normalized_key_name(a)) == key_code_for_name(normalized_key_name(b)),
{
    lemma_case_variants_trim_start(a, b);
    lemma_case_variants_trim_end(trim_start(a), trim_start(b));
    let ta = trim_white_space(a);
    let tb = trim_white_space(b);
    assert forall|i: int| 0 <= i < tb.len() implies #[trigger] tb[i] != '_' by {
        lemma_case_variants_chars(ta[i], tb[i]);
    }
    lemma_no_prefix_without_underscore(ta);
    lemma_no_prefix_without_underscore(tb);
    assert forall|i: int| 0 <= i < ta.len() implies ascii_upper_char(#[trigger] ta[i])
        == ascii_upper_char(tb[i]) by {
        lemma_case_variants_chars(ta[i], tb[i]);
    }
    assert forall|i: int| 0 <= i < ta.len() implies (#[trigger] ta[i] as int) < 0x80 && ta[i] != '_' by {
        assert(case_variants(ta, tb));
    }
    assert forall|i: int| 0 <= i < tb.len() implies (#[trigger] tb[i] as int) < 0x80 by {
        assert(case_variants(ta, tb));
        assert((ta[i] as int) < 0x80);
    }
    assert(is_ascii_chars(ta));
    assert(is_ascii_chars(tb));
    assert(ascii_upper(ta) =~= ascii_upper(tb));
}

} // verus!
