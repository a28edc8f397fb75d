//! Parsers for single arguments: tags, literals, and id lists.
//!
//! Each parser consumes one whole argument string or rejects it; the
//! accepted language and the produced value are pinned down by spec
//! functions over the argument's characters.

use vstd::prelude::*;
use vstd::string::StrSliceExecFns;
use vstd::string::StringExecFns;

verus! {

/// An ASCII decimal digit.
pub open spec fn is_digit(c: char) -> bool {
    48 <= c as u32 <= 57
}

/// An ASCII letter.
pub open spec fn is_alpha(c: char) -> bool {
    (65 <= c as u32 <= 90) || (97 <= c as u32 <= 122)
}

/// An ASCII letter or digit.
pub open spec fn is_alphanum(c: char) -> bool {
    is_alpha(c) || is_digit(c)
}

/// A tag name: a letter followed by letters and digits.
pub open spec fn is_tag_name(s: Seq<char>) -> bool {
    s.len() > 0 && is_alpha(s[0]) && (forall|i: int| 0 <= i < s.len() ==> is_alphanum(#[trigger] s[i]))
}

/// The argument is a sign character followed by a tag name.
pub open spec fn tag_with(s: Seq<char>, sign: char) -> bool {
    s.len() >= 2 && s[0] == sign && is_tag_name(s.subrange(1, s.len() as int))
}

fn check_alpha(c: char) -> (r: bool)
    ensures
        r == is_alpha(c),
{
    let u = c as u32;
    (u >= 65 && u <= 90) || (u >= 97 && u <= 122)
}

fn check_digit(c: char) -> (r: bool)
    ensures
        r == is_digit(c),
{
    let u = c as u32;
    u >= 48 && u <= 57
}

fn check_alphanum(c: char) -> (r: bool)
    ensures
        r == is_alphanum(c),
{
    check_alpha(c) || check_digit(c)
}

/// Recognize a tag prefixed with the given sign and return the tag name.
fn sign_tag(input: &str, sign: char) -> (r: Option<String>)
    ensures
        r is Some <==> tag_with(input@, sign),
        r is Some ==> r.unwrap()@ == input@.subrange(1, input@.len() as int),
{
    let n = input.unicode_len();
    if n < 2 {
        return None;
    }
    if input.get_char(0) != sign {
        return None;
    }
    let ghost name = input@.subrange(1, input@.len() as int);
    if !check_alpha(input.get_char(1)) {
        proof {
            assert(name[0] == input@[1]);
        }
        return None;
    }
    let mut i: usize = 2;
    while i < n
        invariant
            n == input@.len(),
            2 <= i <= n,
            is_alpha(input@[1]),
            forall|j: int| 1 <= j < i ==> is_alphanum(#[trigger] input@[j]),
        decreases n - i,
    {
        if !check_alphanum(input.get_char(i)) {
            proof {
                assert(input@.subrange(1, input@.len() as int)[i - 1] == input@[i as int]);
            }
            return None;
        }
        i += 1;
    }
    proof {
        assert forall|k: int| 0 <= k < name.len() implies is_alphanum(#[trigger] name[k]) by {
            assert(name[k] == input@[k + 1]);
        }
        assert(name[0] == input@[1]);
        assert(is_tag_name(name));
    }
    Some(input.substring_char(1, n).to_owned())
}

/// Recognize a tag prefixed with `+` and return the tag name.
pub fn plus_tag(input: &str) -> (r: Option<String>)
    ensures
        r is Some <==> tag_with(input@, '+'),
        r is Some ==> r.unwrap()@ == input@.subrange(1, input@.len() as int),
{
    sign_tag(input, '+')
}

/// Recognize a tag prefixed with `-` and return the tag name.
pub fn minus_tag(input: &str) -> (r: Option<String>)
    ensures
        r is Some <==> tag_with(input@, '-'),
        r is Some ==> r.unwrap()@ == input@.subrange(1, input@.len() as int),
{
    sign_tag(input, '-')
}

/// Recognize a tag prefixed with `+` or `-`: `true` for `+`, `false` for `-`,
/// with the tag name.
pub fn tag(input: &str) -> (r: Option<(bool, String)>)
    ensures
        r is Some <==> (tag_with(input@, '+') || tag_with(input@, '-')),
        r is Some ==> r.unwrap().0 == tag_with(input@, '+') && r.unwrap().1@ == input@.subrange(
            1,
            input@.len() as int,
        ),
{
    match plus_tag(input) {
        Some(name) => Some((true, name)),
        None => match minus_tag(input) {
            Some(name) => Some((false, name)),
            None => None,
        },
    }
}

/// The argument split at every comma; always at least one (possibly empty)
/// part.
pub open spec fn split_ids(s: Seq<char>) -> Seq<Seq<char>>
    decreases s.len(),
{
    if s.len() == 0 {
        seq![Seq::<char>::empty()]
    } else if s[0] == ',' {
        seq![Seq::<char>::empty()] + split_ids(s.drop_first())
    } else {
        let rest = split_ids(s.drop_first());
        seq![seq![s[0]] + rest[0]] + rest.drop_first()
    }
}

/// Every character is a digit.
pub open spec fn all_digits(s: Seq<char>) -> bool {
    forall|i: int| 0 <= i < s.len() ==> is_digit(#[trigger] s[i])
}

/// An ASCII hexadecimal digit, either case.
pub open spec fn is_hex_digit(c: char) -> bool {
    is_digit(c) || (65 <= c as u32 <= 70) || (97 <= c as u32 <= 102)
}

/// Every character in `[from, to)` is a hexadecimal digit.
pub open spec fn hex_range(s: Seq<char>, from: int, to: int) -> bool {
    forall|i: int| from <= i < to ==> is_hex_digit(#[trigger] s[i])
}

/// A prefix of a hyphenated UUID, whole leading groups only: 8, 8-4, 8-4-4,
/// 8-4-4-4 or 8-4-4-4-12 hexadecimal digits.
pub open spec fn uuid_prefix(s: Seq<char>) -> bool {
    ||| (s.len() == 8 && hex_range(s, 0, 8))
    ||| (s.len() == 13 && hex_range(s, 0, 8) && s[8] == '-' && hex_range(s, 9, 13))
    ||| (s.len() == 18 && hex_range(s, 0, 8) && s[8] == '-' && hex_range(s, 9, 13) && s[13] == '-'
        && hex_range(s, 14, 18))
    ||| (s.len() == 23 && hex_range(s, 0, 8) && s[8] == '-' && hex_range(s, 9, 13) && s[13] == '-'
        && hex_range(s, 14, 18) && s[18] == '-' && hex_range(s, 19, 23))
    ||| (s.len() == 36 && hex_range(s, 0, 8) && s[8] == '-' && hex_range(s, 9, 13) && s[13] == '-'
        && hex_range(s, 14, 18) && s[18] == '-' && hex_range(s, 19, 23) && s[23] == '-'
        && hex_range(s, 24, 36))
}

/// An id: an integer (a non-empty run of digits) or a UUID prefix.
pub open spec fn valid_id_token(s: Seq<char>) -> bool {
    (s.len() > 0 && all_digits(s)) || uuid_prefix(s)
}

/// A comma-separated list of ids (integers or UUID prefixes).
pub open spec fn id_list_ok(s: Seq<char>) -> bool {
    s.len() > 0 && (forall|k: int|
        0 <= k < split_ids(s).len() ==> valid_id_token(#[trigger] split_ids(s)[k]))
}

/// The character images of a vector of strings.
pub open spec fn string_views(ss: Seq<String>) -> Seq<Seq<char>> {
    ss.map_values(|t: String| t@)
}

pub proof fn lemma_split_ids_len(s: Seq<char>)
    ensures
        split_ids(s).len() >= 1,
    decreases s.len(),
{
    if s.len() > 0 {
        lemma_split_ids_len(s.drop_first());
    }
}

/// The first part, with more of the argument still to be read: whatever that
/// unread remainder splits into, its first part continued by `x`.
spec fn merge_first(x: Seq<char>, ps: Seq<Seq<char>>) -> Seq<Seq<char>> {
    seq![x + ps[0]] + ps.drop_first()
}

/// How one character moves the split of the remainder.
proof fn lemma_split_ids_step(s: Seq<char>, i: int)
    requires
        0 <= i < s.len(),
    ensures
        s[i] == ',' ==> split_ids(s.subrange(i, s.len() as int)) == seq![Seq::<char>::empty()]
            + split_ids(s.subrange(i + 1, s.len() as int)),
        s[i] != ',' ==> split_ids(s.subrange(i, s.len() as int)) == seq![seq![s[i]] + split_ids(
            s.subrange(i + 1, s.len() as int),
        )[0]] + split_ids(s.subrange(i + 1, s.len() as int)).drop_first(),
{
    let n = s.len() as int;
    assert(s.subrange(i, n).drop_first() =~= s.subrange(i + 1, n));
    assert(s.subrange(i, n)[0] == s[i]);
}

fn check_hex_digit(c: char) -> (r: bool)
    ensures
        r == is_hex_digit(c),
{
    let u = c as u32;
    check_digit(c) || (u >= 65 && u <= 70) || (u >= 97 && u <= 102)
}

fn check_hex_range(s: &str, from: usize, to: usize) -> (r: bool)
    requires
        from <= to <= s@.len(),
    ensures
        r == hex_range(s@, from as int, to as int),
{
    let mut i = from;
    while i < to
        invariant
            from <= i <= to,
            to <= s@.len(),
            forall|j: int| from <= j < i ==> is_hex_digit(#[trigger] s@[j]),
        decreases to - i,
    {
        if !check_hex_digit(s.get_char(i)) {
            return false;
        }
        i += 1;
    }
    true
}

fn check_all_digits(s: &str) -> (r: bool)
    ensures
        r == (s@.len() > 0 && all_digits(s@)),
{
    let n = s.unicode_len();
    if n == 0 {
        return false;
    }
    let mut i: usize = 0;
    while i < n
        invariant
            n == s@.len(),
            i <= n,
            forall|j: int| 0 <= j < i ==> is_digit(#[trigger] s@[j]),
        decreases n - i,
    {
        if !check_digit(s.get_char(i)) {
            return false;
        }
        i += 1;
    }
    true
}

fn check_uuid_prefix(s: &str) -> (r: bool)
    ensures
        r == uuid_prefix(s@),
{
    let n = s.unicode_len();
    if n == 8 {
        check_hex_range(s, 0, 8)
    } else if n == 13 {
        check_hex_range(s, 0, 8) && s.get_char(8) == '-' && check_hex_range(s, 9, 13)
    } else if n == 18 {
        check_hex_range(s, 0, 8) && s.get_char(8) == '-' && check_hex_range(s, 9, 13)
            && s.get_char(13) == '-' && check_hex_range(s, 14, 18)
    } else if n == 23 {
        check_hex_range(s, 0, 8) && s.get_char(8) == '-' && check_hex_range(s, 9, 13)
            && s.get_char(13) == '-' && check_hex_range(s, 14, 18) && s.get_char(18) == '-'
            && check_hex_range(s, 19, 23)
    } else if n == 36 {
        check_hex_range(s, 0, 8) && s.get_char(8) == '-' && check_hex_range(s, 9, 13)
            && s.get_char(13) == '-' && check_hex_range(s, 14, 18) && s.get_char(18) == '-'
            && check_hex_range(s, 19, 23) && s.get_char(23) == '-' && check_hex_range(s, 24, 36)
    } else {
        false
    }
}

/// Whether one comma-separated part is an id: an integer or a UUID prefix.
fn check_id_token(s: &str) -> (r: bool)
    ensures
        r == valid_id_token(s@),
{
    check_all_digits(s) || check_uuid_prefix(s)
}

/// Recognize a comma-separated list of ids (integers or UUID prefixes) and
/// return them.
pub fn id_list(input: &str) -> (r: Option<Vec<String>>)
    ensures
        r is Some <==> id_list_ok(input@),
        r is Some ==> string_views(r.unwrap()@) == split_ids(input@),
{
    let n = input.unicode_len();
    let ghost whole = split_ids(input@);
    let mut parts: Vec<String> = Vec::new();
    let mut cur: String = String::new();
    let mut i: usize = 0;
    proof {
        assert(input@.subrange(0, input@.len() as int) =~= input@);
        assert(whole =~~= string_views(parts@) + merge_first(
            cur@,
            split_ids(input@.subrange(0, input@.len() as int)),
        ));
    }
    while i < n
        invariant
            n == input@.len(),
            0 <= i <= n,
            whole == split_ids(input@),
            whole == string_views(parts@) + merge_first(
                cur@,
                split_ids(input@.subrange(i as int, input@.len() as int)),
            ),
            forall|k: int| 0 <= k < parts@.len() ==> valid_id_token(
                #[trigger] string_views(parts@)[k],
            ),
        decreases n - i,
    {
        let ghost tail = split_ids(input@.subrange(i as int, input@.len() as int));
        let ghost tail1 = split_ids(input@.subrange(i + 1, input@.len() as int));
        proof {
            lemma_split_ids_step(input@, i as int);
            lemma_split_ids_len(input@.subrange(i + 1, input@.len() as int));
            assert(whole[parts@.len() as int] == merge_first(cur@, tail)[0]);
        }
        let c = input.get_char(i);
        if c == ',' {
            proof {
                assert(tail[0] =~= Seq::<char>::empty());
                assert(whole[parts@.len() as int] =~= cur@);
            }
            if !check_id_token(cur.as_str()) {
                return None;
            }
            let ghost parts0 = parts@;
            let ghost curv = cur@;
            parts.push(cur);
            cur = String::new();
            proof {
                assert(string_views(parts@) =~~= string_views(parts0).push(curv));
                assert(merge_first(curv, tail) =~~= seq![curv] + tail1.drop_first().insert(
                    0,
                    tail1[0],
                ));
                assert(tail1.drop_first().insert(0, tail1[0]) =~~= tail1);
                assert(merge_first(cur@, tail1) =~~= seq![tail1[0]] + tail1.drop_first());
                assert(whole =~~= string_views(parts@) + merge_first(cur@, tail1));
                assert forall|k: int| 0 <= k < parts@.len() implies valid_id_token(
                    #[trigger] string_views(parts@)[k],
                ) by {
                    if k < parts0.len() {
                        assert(string_views(parts@)[k] == string_views(parts0)[k]);
                    } else {
                        assert(string_views(parts@)[k] == curv);
                    }
                }
            }
        } else {
            let piece = input.substring_char(i, i + 1);
            let ghost cur0 = cur@;
            proof {
                assert(piece@ =~= seq![input@[i as int]]);
            }
            cur.append(piece);
            proof {
                assert(tail =~~= seq![seq![input@[i as int]] + tail1[0]] + tail1.drop_first());
                assert(merge_first(cur@, tail1) =~~= merge_first(cur0, tail));
            }
        }
        i += 1;
    }
    proof {
        assert(input@.subrange(n as int, input@.len() as int) =~= Seq::<char>::empty());
        assert(merge_first(cur@, split_ids(Seq::<char>::empty()))[0] =~= cur@);
        assert(whole =~~= string_views(parts@).push(cur@));
    }
    if !check_id_token(cur.as_str()) {
        proof {
            assert(whole[parts@.len() as int] == cur@);
        }
        return None;
    }
    let ghost parts0 = parts@;
    let ghost curv = cur@;
    parts.push(cur);
    proof {
        assert(string_views(parts@) =~~= string_views(parts0).push(curv));
        assert(string_views(parts@) =~~= whole);
        assert(input@.len() > 0);
        assert forall|k: int| 0 <= k < split_ids(input@).len() implies valid_id_token(
            #[trigger] split_ids(input@)[k],
        ) by {
            assert(split_ids(input@)[k] == string_views(parts@)[k]);
            if k < parts0.len() {
                assert(string_views(parts@)[k] == string_views(parts0)[k]);
            } else {
                assert(string_views(parts@)[k] == curv);
            }
        }
    }
    Some(parts)
}

} // verus!
