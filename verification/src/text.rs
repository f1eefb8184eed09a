//! Names and paths.
use crate::client::opt_text;
use vstd::prelude::*;
use vstd::utf8::{decode_utf8, encode_utf8, valid_utf8};

verus! {

/// Whether `a` comes before `b` in the order of a dictionary.
pub open spec fn comes_before(a: Seq<u8>, b: Seq<u8>) -> bool
    decreases a.len(),
{
    if b.len() == 0 {
        false
    } else if a.len() == 0 {
        true
    } else if a[0] != b[0] {
        a[0] < b[0]
    } else {
        comes_before(a.drop_first(), b.drop_first())
    }
}

/// The order of strings: that of their UTF-8 bytes.
pub open spec fn name_before(a: Seq<char>, b: Seq<char>) -> bool {
    comes_before(encode_utf8(a), encode_utf8(b))
}

proof fn lemma_order_is_strict(a: Seq<u8>, b: Seq<u8>, c: Seq<u8>)
    ensures
        !comes_before(a, a),
        comes_before(a, b) && comes_before(b, c) ==> comes_before(a, c),
        a != b ==> comes_before(a, b) || comes_before(b, a),
    decreases a.len(),
{
    if a.len() > 0 && b.len() > 0 {
        let c1 = if c.len() > 0 {
            c.drop_first()
        } else {
            c
        };
        lemma_order_is_strict(a.drop_first(), b.drop_first(), c1);
        if a[0] == b[0] && a.drop_first() == b.drop_first() {
            assert(a =~= seq![a[0]] + a.drop_first());
            assert(b =~= seq![b[0]] + b.drop_first());
        }
    } else if a.len() > 0 {
        lemma_order_is_strict(a.drop_first(), b, c);
    } else {
        if b.len() == 0 {
            assert(a =~= b);
        }
    }
}

proof fn lemma_same_bytes_same_name(a: Seq<char>, b: Seq<char>)
    requires
        encode_utf8(a) == encode_utf8(b),
    ensures
        a == b,
{
    broadcast use vstd::utf8::encode_utf8_decode_utf8;

    assert(decode_utf8(encode_utf8(a)) == a);
    assert(decode_utf8(encode_utf8(b)) == b);
}

/// The order of names is a strict total order.
pub proof fn lemma_name_order(a: Seq<char>, b: Seq<char>, c: Seq<char>)
    ensures
        !name_before(a, a),
        name_before(a, b) && name_before(b, c) ==> name_before(a, c),
        a != b ==> name_before(a, b) || name_before(b, a),
{
    lemma_order_is_strict(encode_utf8(a), encode_utf8(b), encode_utf8(c));
    if encode_utf8(a) == encode_utf8(b) {
        lemma_same_bytes_same_name(a, b);
    }
}

/// Whether `a` comes before `b`.
pub fn is_before(a: &str, b: &str) -> (before: bool)
    ensures
        before == name_before(a@, b@),
{
    let x = a.as_bytes();
    let y = b.as_bytes();
    let ghost xs = x@;
    let ghost ys = y@;
    let mut i: usize = 0;
    assert(xs.skip(0) =~= xs);
    assert(ys.skip(0) =~= ys);
    while i < x.len() && i < y.len()
        invariant
            x@ == xs,
            y@ == ys,
            xs == encode_utf8(a@),
            ys == encode_utf8(b@),
            i <= xs.len(),
            i <= ys.len(),
            comes_before(xs, ys) == comes_before(xs.skip(i as int), ys.skip(i as int)),
        decreases xs.len() - i,
    {
        let ghost p = xs.skip(i as int);
        let ghost q = ys.skip(i as int);
        assert(p[0] == xs[i as int]);
        assert(q[0] == ys[i as int]);
        if x[i] != y[i] {
            return x[i] < y[i];
        }
        assert(p.drop_first() =~= xs.skip(i + 1));
        assert(q.drop_first() =~= ys.skip(i + 1));
        i = i + 1;
    }
    i < y.len()
}

/// Whether two strings are the same.
pub fn same_text(a: &str, b: &str) -> (same: bool)
    ensures
        same == (a@ == b@),
{
    let x = a.as_bytes();
    let y = b.as_bytes();
    if x.len() != y.len() {
        return false;
    }
    let mut i: usize = 0;
    while i < x.len()
        invariant
            x@ == encode_utf8(a@),
            y@ == encode_utf8(b@),
            x@.len() == y@.len(),
            i <= x@.len(),
            forall|j: int| 0 <= j < i ==> x@[j] == y@[j],
        decreases x@.len() - i,
    {
        if x[i] != y[i] {
            return false;
        }
        i = i + 1;
    }
    proof {
        assert(x@ =~= y@);
        lemma_same_bytes_same_name(a@, b@);
    }
    true
}

/// A list of names in order, without repetition.
pub open spec fn sorted_names(names: Seq<String>) -> bool {
    forall|i: int, j: int|
        0 <= i < j < names.len() ==> name_before((#[trigger] names[i])@, (#[trigger] names[j])@)
}

pub open spec fn names_contain(names: Seq<String>, name: Seq<char>) -> bool {
    exists|i: int| 0 <= i < names.len() && (#[trigger] names[i])@ == name
}

/// Adds a name to a sorted list unless it is there already.
pub fn add_name(names: &mut Vec<String>, name: &str)
    requires
        sorted_names(old(names)@),
    ensures
        sorted_names(final(names)@),
        forall|n: Seq<char>|
            #[trigger] names_contain(final(names)@, n) <==> names_contain(old(names)@, n) || n
                == name@,
{
    let ghost before = names@;
    let mut i: usize = 0;
    while i < names.len() && is_before(names[i].as_str(), name)
        invariant
            names@ == before,
            i <= before.len(),
            forall|j: int| 0 <= j < i ==> name_before((#[trigger] before[j])@, name@),
        decreases before.len() - i,
    {
        i = i + 1;
    }
    if i < names.len() && same_text(names[i].as_str(), name) {
        assert(before[i as int]@ == name@);
        return ;
    }
    let added: String = name.to_owned();
    names.insert(i, added);
    proof {
        if i < before.len() {
            lemma_name_order(before[i as int]@, name@, name@);
        }
        assert forall|a: int, b: int| 0 <= a < b < names@.len() implies name_before(
            (#[trigger] names@[a])@,
            (#[trigger] names@[b])@,
        ) by {
            if a == i {
                if b - 1 > i {
                    assert(name_before(before[i as int]@, before[b - 1]@));
                    lemma_name_order(name@, before[i as int]@, before[b - 1]@);
                }
            } else if b == i {
            } else {
                let a0 = if a < i {
                    a
                } else {
                    a - 1
                };
                let b0 = if b < i {
                    b
                } else {
                    b - 1
                };
                assert(name_before(before[a0]@, before[b0]@));
            }
        }
        assert forall|n: Seq<char>| #[trigger]
            names_contain(names@, n) <==> names_contain(before, n) || n == name@ by {
            if names_contain(before, n) {
                let k = choose|k: int| 0 <= k < before.len() && (#[trigger] before[k])@ == n;
                let k1 = if k < i {
                    k
                } else {
                    k + 1
                };
                assert(names@[k1]@ == n);
            }
            if n == name@ {
                assert(names@[i as int]@ == n);
            }
            if names_contain(names@, n) && n != name@ {
                let k = choose|k: int| 0 <= k < names@.len() && (#[trigger] names@[k])@ == n;
                let k1 = if k < i {
                    k
                } else {
                    k - 1
                };
                assert(before[k1]@ == n);
            }
        }
    }
}

/// Whether `name` is in the list.
pub fn is_listed(names: &Vec<String>, name: &str) -> (listed: bool)
    ensures
        listed == names_contain(names@, name@),
{
    let mut i: usize = 0;
    while i < names.len()
        invariant
            i <= names@.len(),
            forall|j: int| 0 <= j < i ==> (#[trigger] names@[j])@ != name@,
        decreases names@.len() - i,
    {
        if same_text(names[i].as_str(), name) {
            return true;
        }
        i = i + 1;
    }
    false
}

/// The bytes of a text.
pub fn bytes_of(text: &str) -> (bytes: Vec<u8>)
    ensures
        bytes@ == encode_utf8(text@),
{
    let slice = text.as_bytes();
    let mut bytes: Vec<u8> = Vec::new();
    let mut i: usize = 0;
    while i < slice.len()
        invariant
            slice@ == encode_utf8(text@),
            i <= slice@.len(),
            bytes@ == slice@.take(i as int),
        decreases slice@.len() - i,
    {
        bytes.push(slice[i]);
        i = i + 1;
        assert(bytes@ =~= slice@.take(i as int));
    }
    assert(bytes@ =~= slice@);
    bytes
}

/// The value of a hexadecimal digit.
pub open spec fn hex_value(digit: u8) -> Option<u8> {
    if 0x30 <= digit <= 0x39 {
        Some((digit - 0x30) as u8)
    } else if 0x41 <= digit <= 0x46 {
        Some((digit - 0x41 + 10) as u8)
    } else if 0x61 <= digit <= 0x66 {
        Some((digit - 0x61 + 10) as u8)
    } else {
        None
    }
}

/// The bytes that a percent-encoded text stands for: each `%` that is followed
/// by two hexadecimal digits is the byte with that value, anything else is
/// itself.
pub open spec fn percent_decoded(text: Seq<u8>) -> Seq<u8>
    decreases text.len(),
{
    if text.len() == 0 {
        Seq::empty()
    } else if text.len() > 2 && text[0] == 0x25 && hex_value(text[1]) is Some && hex_value(
        text[2],
    ) is Some {
        seq![(hex_value(text[1])->0 * 16 + hex_value(text[2])->0) as u8] + percent_decoded(
            text.skip(3),
        )
    } else {
        seq![text[0]] + percent_decoded(text.skip(1))
    }
}

/// `percent_encoding::percent_decode_str` followed by `decode_utf8`. The text
/// that comes back has the decoded bytes as its UTF-8 form; nothing comes back
/// exactly when the decoded bytes are not UTF-8.
#[verifier::external_body]
fn percent_decode(text: &str) -> (decoded: Option<String>)
    ensures
        match decoded {
            Some(s) => encode_utf8(s@) == percent_decoded(encode_utf8(text@)),
            None => !valid_utf8(percent_decoded(encode_utf8(text@))),
        },
{
    match percent_encoding::percent_decode_str(text).decode_utf8() {
        Ok(path) => Some(path.into_owned()),
        Err(_) => None,
    }
}

/// A random name from the iterator `names::Generator` in its default form. There
/// always is one, and it is made of an adjective and a noun with a hyphen between
/// them; which ones is left to chance, and nothing is said about that.
#[verifier::external_body]
pub(crate) fn random_name() -> (name: Option<String>)
    ensures
        name is Some,
        name->0@.contains('-'),
{
    names::Generator::default().next()
}

/// `String::push`: the character is appended to the text, and nothing else changes.
pub assume_specification[ String::push ](text: &mut String, c: char)
    ensures
        final(text)@ == old(text)@.push(c),
;

/// Whether a path has a slash in front of a drive letter.
pub open spec fn has_drive_slash(path: Seq<u8>) -> bool {
    path.len() > 2 && path[0] == 0x2f && path[2] == 0x3a
}

/// A path without the slash that a file URI puts in front of a drive letter:
/// `/C:\Users` becomes `C:\Users`.
pub fn strip_drive_slash(path: String) -> (stripped: String)
    ensures
        encode_utf8(stripped@) == (if has_drive_slash(encode_utf8(path@)) {
            encode_utf8(path@).skip(1)
        } else {
            encode_utf8(path@)
        }),
{
    let strip = {
        let bytes = path.as_str().as_bytes();
        bytes.len() > 2 && bytes[0] == 0x2f && bytes[2] == 0x3a
    };
    if !strip {
        return path;
    }
    let ghost bytes = encode_utf8(path@);
    proof {
        broadcast use vstd::utf8::encode_utf8_valid_utf8;

        assert(valid_utf8(bytes));
        assert(vstd::utf8::is_char_boundary(bytes, 1)) by {
            reveal_with_fuel(vstd::utf8::is_char_boundary, 3);
        }
    }
    let (_, rest) = path.as_str().split_at(1);
    assert(encode_utf8(rest@) =~= bytes.skip(1));
    rest.to_owned()
}

/// Whether `path` is what a percent-encoded URI path stands for: nothing if that
/// is not text, and else the text without the slash in front of a drive letter.
pub open spec fn stands_for(uri_path: Seq<char>, path: Option<Seq<char>>) -> bool {
    let bytes = percent_decoded(encode_utf8(uri_path));
    match path {
        Some(p) => encode_utf8(p) == (if has_drive_slash(bytes) {
            bytes.skip(1)
        } else {
            bytes
        }),
        None => !valid_utf8(bytes),
    }
}

/// The path that a percent-encoded URI path stands for, if it is text at all.
pub fn path_of_uri(uri_path: &str) -> (path: Option<String>)
    ensures
        stands_for(uri_path@, opt_text(path)),
{
    match percent_decode(uri_path) {
        Some(path) => Some(strip_drive_slash(path)),
        None => None,
    }
}

// ---- the order of names ----
/// Of two texts with a common beginning, the one comes first whose next byte is smaller,
/// or which has none.
pub proof fn law_the_first_difference_decides(
    common: Seq<u8>,
    a: u8,
    b: u8,
    x: Seq<u8>,
    y: Seq<u8>,
)
    ensures
        comes_before(common + (seq![a] + x), common + (seq![b] + y)) <== a < b,
        comes_before(common, common + (seq![b] + y)),
        !comes_before(common + (seq![b] + y), common),
        !comes_before(common, common),
    decreases common.len(),
{
    let one = common + (seq![a] + x);
    let other = common + (seq![b] + y);
    if common.len() == 0 {
        assert(one =~= seq![a] + x);
        assert(other =~= seq![b] + y);
        assert(one[0] == a && other[0] == b);
    } else {
        let rest = common.drop_first();
        law_the_first_difference_decides(rest, a, b, x, y);
        assert(one.drop_first() =~= rest + (seq![a] + x));
        assert(other.drop_first() =~= rest + (seq![b] + y));
        assert(one[0] == common[0] && other[0] == common[0]);
    }
}

// ---- what percent-encoding stands for ----
/// The hexadecimal digits, of either case, are worth what they are worth, and nothing
/// else is worth anything.
pub proof fn law_what_a_digit_is_worth(digit: u8)
    ensures
        48 <= digit <= 57 ==> hex_value(digit) == Some((digit - 48) as u8),
        65 <= digit <= 70 ==> hex_value(digit) == Some((digit - 55) as u8),
        97 <= digit <= 102 ==> hex_value(digit) == Some((digit - 87) as u8),
        !(48 <= digit <= 57) && !(65 <= digit <= 70) && !(97 <= digit <= 102) ==> hex_value(digit)
            is None,
{
}

/// A percent sign with two hexadecimal digits stands for one byte, whatever follows.
pub proof fn law_an_escape_stands_for_a_byte(high: u8, low: u8, rest: Seq<u8>)
    requires
        hex_value(high) is Some,
        hex_value(low) is Some,
    ensures
        percent_decoded(seq![37u8, high, low] + rest) == seq![
            (hex_value(high)->0 * 16 + hex_value(low)->0) as u8,
        ] + percent_decoded(rest),
{
    let text = seq![37u8, high, low] + rest;
    assert(text.skip(3) =~= rest);
}

/// Any byte that does not begin an escape stands for itself, whatever follows.
pub proof fn law_other_bytes_stand_for_themselves(byte: u8, rest: Seq<u8>)
    requires
        byte != 37 || rest.len() < 2 || hex_value(rest[0]) is None || hex_value(rest[1]) is None,
    ensures
        percent_decoded(seq![byte] + rest) == seq![byte] + percent_decoded(rest),
        percent_decoded(Seq::<u8>::empty()) == Seq::<u8>::empty(),
{
    let text = seq![byte] + rest;
    assert(text.skip(1) =~= rest);
    assert(text[0] == byte);
    if rest.len() >= 2 {
        assert(text[1] == rest[0]);
        assert(text[2] == rest[1]);
    }
}

/// What a URI path stands for: the text whose bytes are the decoded ones, without the
/// slash in front of a drive letter; and nothing if the decoded bytes are no text.
pub proof fn law_what_a_uri_path_stands_for(uri_path: Seq<char>, path: Seq<char>)
    ensures
        ({
            let bytes = percent_decoded(encode_utf8(uri_path));
            let drive = bytes.len() >= 3 && bytes[0] == 47 && bytes[2] == 58;
            &&& stands_for(uri_path, None) <==> !valid_utf8(bytes)
            &&& drive ==> (stands_for(uri_path, Some(path)) <==> encode_utf8(path) == bytes.skip(1))
            &&& !drive ==> (stands_for(uri_path, Some(path)) <==> encode_utf8(path) == bytes)
        }),
{
}

/// A path loses its first slash exactly if a drive letter follows, that is, if its third
/// byte is a colon.
pub proof fn law_when_a_slash_goes(path: Seq<u8>)
    ensures
        has_drive_slash(path) <==> path.len() >= 3 && path[0] == 47 && path[2] == 58,
{
}

} // verus!
