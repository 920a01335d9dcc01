//! The text side of a query: gluing fragments, separating them with single
//! spaces, and the shape of a parameter placeholder.

use vstd::prelude::*;
use vstd::string::StringSliceAdditionalSpecFns;

verus! {

/// What `char::is_whitespace` answers for `c`: whether `c` has the Unicode
/// `White_Space` property.
pub uninterp spec fn white_space_property(c: char) -> bool;

/// Whether `c` counts as whitespace at a fragment boundary.
///
/// The plain space does; any other character does exactly when it has the
/// Unicode `White_Space` property.
pub open spec fn is_whitespace(c: char) -> bool {
    c == ' ' || white_space_property(c)
}

/// `char::is_whitespace` of the standard library.
///
/// Its documentation defines the answer as the Unicode `White_Space` property
/// of the character, and shows that the plain space has it. That much is
/// taken on trust, in the words of `is_whitespace` above. Which other
/// characters have the property is left open: it is named, not spelled out.
pub assume_specification[ char::is_whitespace ](c: char) -> (b: bool)
    ensures
        b == (c == ' ' || white_space_property(c)),
;

/// Whether a fragment that follows `text` has to be set off by a space:
/// `text` is not empty and does not already end in whitespace.
pub open spec fn open_ended(text: Seq<char>) -> bool {
    text.len() > 0 && !is_whitespace(text.last())
}

/// `text` after `fragment` was appended with its boundary normalized: one
/// space in front where `text` is open-ended, then the fragment, then always
/// one trailing space.
pub open spec fn spaced(text: Seq<char>, fragment: Seq<char>) -> Seq<char> {
    if open_ended(text) {
        text + seq![' '] + fragment + seq![' ']
    } else {
        text + fragment + seq![' ']
    }
}

/// The placeholder token of the parameter `name`: a dollar sign directly
/// followed by the name, with no quoting and no terminator.
pub open spec fn placeholder(name: Seq<char>) -> Seq<char> {
    seq!['$'] + name
}

/// `token` stands in `text`, character for character, from position `from`
/// on.
pub open spec fn stands_at(text: Seq<char>, token: Seq<char>, from: int) -> bool {
    0 <= from && from + token.len() <= text.len() && text.subrange(from, from + token.len())
        == token
}

/// Text is empty exactly when its UTF-8 encoding is.
proof fn lemma_encoding_empty(chars: Seq<char>)
    ensures
        vstd::utf8::encode_utf8(chars).len() == 0 <==> chars.len() == 0,
{
    if chars.len() > 0 {
        assert(vstd::utf8::encode_scalar(chars[0] as u32).len() > 0);
    }
}

/// The last character of `text`, if it has one.
///
/// Looks only at the end of the text: it steps back from the last byte to
/// where the last character starts, and decodes what follows.
pub fn last_char(text: &str) -> (last: Option<char>)
    ensures
        last == if text@.len() == 0 {
            None
        } else {
            Some(text@.last())
        },
{
    broadcast use {
        vstd::utf8::encode_utf8_valid_utf8,
        vstd::utf8::encode_utf8_decode_utf8,
        vstd::utf8::decode_utf8_split,
    };

    let len: usize = text.as_bytes().len();
    proof {
        lemma_encoding_empty(text@);
    }
    if len == 0 {
        return None;
    }
    let mut start: usize = len - 1;
    while !text.is_char_boundary(start)
        invariant
            start < len,
            len == text.spec_bytes().len(),
            vstd::utf8::valid_utf8(text.spec_bytes()),
        decreases start,
    {
        start -= 1;
    }
    let (head, tail) = text.split_at(start);
    proof {
        assert(vstd::utf8::decode_utf8(text.spec_bytes()) == text@);
        assert(vstd::utf8::decode_utf8(head.spec_bytes()) == head@);
        assert(vstd::utf8::decode_utf8(tail.spec_bytes()) == tail@);
        assert(text@ =~= head@ + tail@);
        lemma_encoding_empty(tail@);
    }
    let n: usize = tail.unicode_len();
    Some(tail.get_char(n - 1))
}

/// Decides whether `text` is open-ended.
pub fn is_open_ended(text: &str) -> (open: bool)
    ensures
        open == open_ended(text@),
{
    match last_char(text) {
        Some(last) => !last.is_whitespace(),
        None => false,
    }
}

/// Builds the placeholder token of `name` as an owned string.
pub fn placeholder_of(name: &str) -> (token: String)
    ensures
        token@ == placeholder(name@),
{
    let mut token = String::from_str("$");
    proof {
        reveal_strlit("$");
    }
    token.append(name);
    token
}

/// The three cases of spacing: on empty text the fragment comes first and
/// only the trailing space is added; after text that ends in something other
/// than whitespace, one space goes in front as well; after text that already
/// ends in whitespace, none does.
pub proof fn lemma_spacing_cases(text: Seq<char>, fragment: Seq<char>)
    ensures
        text.len() == 0 ==> spaced(text, fragment) == fragment + seq![' '],
        text.len() > 0 && !is_whitespace(text.last()) ==> spaced(text, fragment) == text
            + seq![' '] + fragment + seq![' '],
        text.len() > 0 && is_whitespace(text.last()) ==> spaced(text, fragment) == text
            + fragment + seq![' '],
{
    if text.len() == 0 {
        assert(text + fragment =~= fragment);
    }
}

/// A spaced append always leaves exactly one more space at the end, whatever
/// was there before, and so never leaves the text open-ended. It adds the
/// fragment, the trailing space, and at most one space in front.
pub proof fn lemma_spaced_ends_in_space(text: Seq<char>, fragment: Seq<char>)
    ensures
        spaced(text, fragment).last() == ' ',
        !open_ended(spaced(text, fragment)),
        spaced(text, fragment).len() == text.len() + fragment.len() + if open_ended(text) {
            2int
        } else {
            1int
        },
{
}

/// Spaced appends in a row do not even each other out: the second finds the
/// trailing space of the first, puts nothing in front, and adds a trailing
/// space of its own. With an empty second fragment the text ends in two
/// spaces side by side.
pub proof fn lemma_spaced_twice(text: Seq<char>, first: Seq<char>, second: Seq<char>)
    ensures
        spaced(spaced(text, first), second) == spaced(text, first) + second + seq![' '],
        ({
            let doubled = spaced(spaced(text, first), Seq::empty());
            &&& doubled == spaced(text, first) + seq![' ']
            &&& doubled[doubled.len() - 1] == ' '
            &&& doubled[doubled.len() - 2] == ' '
        }),
{
    lemma_spaced_ends_in_space(text, first);
    assert(spaced(text, first) + Seq::<char>::empty() + seq![' '] =~= spaced(text, first)
        + seq![' ']);
}

/// Appending never touches what is already written: the text before is a
/// prefix of the text after, for a plain append and for a spaced one.
pub proof fn lemma_appends_keep_prefix(text: Seq<char>, fragment: Seq<char>)
    ensures
        text.is_prefix_of(text + fragment),
        text.is_prefix_of(spaced(text, fragment)),
{
}

/// What is appended stands in the text right behind what was there, or one
/// position further on where a separating space went in between.
pub proof fn lemma_appended_stands(text: Seq<char>, fragment: Seq<char>)
    ensures
        stands_at(text + fragment, fragment, text.len() as int),
        open_ended(text) ==> stands_at(spaced(text, fragment), fragment, text.len() as int + 1),
        !open_ended(text) ==> stands_at(spaced(text, fragment), fragment, text.len() as int),
{
    let n = text.len() as int;
    let m = fragment.len() as int;
    assert((text + fragment).subrange(n, n + m) =~= fragment);
    if open_ended(text) {
        assert(spaced(text, fragment).subrange(n + 1, n + 1 + m) =~= fragment);
    } else {
        assert(spaced(text, fragment).subrange(n, n + m) =~= fragment);
    }
}

/// A token that stands in a text stands at the same position in every text
/// that begins with it.
pub proof fn lemma_prefix_keeps_standing(
    text: Seq<char>,
    longer: Seq<char>,
    token: Seq<char>,
    from: int,
)
    requires
        text.is_prefix_of(longer),
        stands_at(text, token, from),
    ensures
        stands_at(longer, token, from),
{
    assert(longer.subrange(from, from + token.len()) =~= text.subrange(
        from,
        from + token.len(),
    ));
}

/// A placeholder is the dollar sign and then the name, character for
/// character, so two names with the same placeholder are the same name.
pub proof fn lemma_placeholder_shape(name: Seq<char>)
    ensures
        placeholder(name).len() == name.len() + 1,
        placeholder(name)[0] == '$',
        placeholder(name).subrange(1, placeholder(name).len() as int) == name,
        forall|other: Seq<char>| placeholder(other) == placeholder(name) ==> other == name,
{
    assert(placeholder(name).subrange(1, placeholder(name).len() as int) =~= name);
    assert forall|other: Seq<char>| placeholder(other) == placeholder(name) implies other
        == name by {
        assert(placeholder(other).subrange(1, placeholder(other).len() as int) =~= other);
    }
}

} // verus!
