//! Telling event streams by their content type.
use vstd::prelude::*;

verus! {

/// Unicode white space.
pub open spec fn is_white_space(c: char) -> bool {
    let code = c as u32;
    ||| 0x09 <= code <= 0x0d
    ||| code == 0x20
    ||| code == 0x85
    ||| code == 0xa0
    ||| code == 0x1680
    ||| 0x2000 <= code <= 0x200a
    ||| code == 0x2028
    ||| code == 0x2029
    ||| code == 0x202f
    ||| code == 0x205f
    ||| code == 0x3000
}

/// The text up to the first occurrence of a character.
pub open spec fn before(text: Seq<char>, end: char) -> Seq<char>
    decreases text.len(),
{
    if text.len() == 0 || text.first() == end {
        Seq::empty()
    } else {
        seq![text.first()] + before(text.drop_first(), end)
    }
}

/// The text without white space at its ends.
pub open spec fn trimmed(text: Seq<char>) -> Seq<char>
    decreases text.len(),
{
    if text.len() == 0 {
        text
    } else if is_white_space(text.first()) {
        trimmed(text.drop_first())
    } else if is_white_space(text.last()) {
        trimmed(text.drop_last())
    } else {
        text
    }
}

/// The code of a character, of an upper-case ASCII letter that of the
/// lower-case one.
pub open spec fn folded(c: char) -> u32 {
    if 'A' <= c <= 'Z' {
        (c as u32 + 32) as u32
    } else {
        c as u32
    }
}

/// The texts differ at most in the case of ASCII letters.
pub open spec fn same_ignoring_case(a: Seq<char>, b: Seq<char>) -> bool {
    &&& a.len() == b.len()
    &&& forall|i: int| 0 <= i < a.len() ==> folded(#[trigger] a[i]) == folded(b[i])
}

/// The media type in a content type: what stands before the parameters.
pub open spec fn media_type(content_type: Seq<char>) -> Seq<char> {
    trimmed(before(content_type, ';'))
}

/// A byte that can be read as text in a header: visible ASCII, a space or a tab.
pub open spec fn is_readable_byte(b: u8) -> bool {
    0x20 <= b < 0x7f || b == 0x09
}

/// The text of a header; a header with other bytes in it has none.
pub open spec fn header_text(raw: Seq<u8>) -> Option<Seq<char>> {
    if forall|i: int| 0 <= i < raw.len() ==> is_readable_byte(#[trigger] raw[i]) {
        Some(raw.map_values(|b: u8| b as char))
    } else {
        None
    }
}

/// The content type is that of an event stream.
pub open spec fn names_event_stream(content_type: Seq<char>) -> bool {
    same_ignoring_case(media_type(content_type), "text/event-stream"@)
}

fn white_space(c: char) -> (white: bool)
    ensures
        white == is_white_space(c),
{
    let code: u32 = c as u32;
    (0x09 <= code && code <= 0x0d) || code == 0x20 || code == 0x85 || code == 0xa0 || code == 0x1680
        || (0x2000 <= code && code <= 0x200a) || code == 0x2028 || code == 0x2029 || code == 0x202f
        || code == 0x205f || code == 0x3000
}

fn fold(c: char) -> (code: u32)
    ensures
        code == folded(c),
{
    let code: u32 = c as u32;
    if 0x41 <= code && code <= 0x5a {
        code + 32
    } else {
        code
    }
}

/// The characters of a text.
fn characters(text: &str) -> (chars: Vec<char>)
    ensures
        chars@ == text@,
{
    let mut chars: Vec<char> = Vec::new();
    for c in it: text.chars()
        invariant
            it.seq() == text@,
            chars@ == text@.take(it.index() as int),
    {
        chars.push(c);
        assert(chars@ =~= text@.take(it.index() + 1));
    }
    assert(text@.take(text@.len() as int) =~= text@);
    chars
}

/// The characters of a header, if it can be read as text.
fn header_characters(raw: &[u8]) -> (text: Option<Vec<char>>)
    ensures
        match text {
            Some(chars) => header_text(raw@) == Some(chars@),
            None => header_text(raw@) is None,
        },
{
    let mut chars: Vec<char> = Vec::new();
    let mut i: usize = 0;
    while i < raw.len()
        invariant
            i <= raw@.len(),
            chars@ == raw@.take(i as int).map_values(|b: u8| b as char),
            forall|j: int| 0 <= j < i ==> is_readable_byte(#[trigger] raw@[j]),
        decreases raw@.len() - i,
    {
        let b: u8 = raw[i];
        if !((0x20 <= b && b < 0x7f) || b == 0x09) {
            assert(!is_readable_byte(raw@[i as int]));
            return None;
        }
        chars.push(b as char);
        i = i + 1;
        assert(chars@ =~= raw@.take(i as int).map_values(|b: u8| b as char));
    }
    assert(raw@.take(raw@.len() as int) =~= raw@);
    Some(chars)
}

proof fn lemma_before(text: Seq<char>, end: char, i: int)
    requires
        0 <= i <= text.len(),
        forall|j: int| 0 <= j < i ==> #[trigger] text[j] != end,
        i < text.len() ==> text[i] == end,
    ensures
        before(text, end) == text.take(i),
    decreases text.len(),
{
    if i > 0 {
        let rest = text.drop_first();
        assert forall|j: int| 0 <= j < i - 1 implies #[trigger] rest[j] != end by {
            assert(rest[j] == text[j + 1]);
        }
        lemma_before(rest, end, i - 1);
        assert(seq![text.first()] + rest.take(i - 1) =~= text.take(i));
    } else {
        assert(text.take(0) =~= Seq::empty());
    }
}

/// Whether a range of characters is a text, ignoring ASCII case.
fn same_text(chars: &Vec<char>, lo: usize, hi: usize, wanted: &Vec<char>) -> (same: bool)
    requires
        lo <= hi <= chars@.len(),
    ensures
        same == same_ignoring_case(chars@.subrange(lo as int, hi as int), wanted@),
{
    let ghost range = chars@.subrange(lo as int, hi as int);
    if hi - lo != wanted.len() {
        return false;
    }
    let mut i: usize = 0;
    while i < wanted.len()
        invariant
            lo <= hi <= chars@.len(),
            hi - lo == wanted@.len(),
            i <= wanted@.len(),
            range == chars@.subrange(lo as int, hi as int),
            forall|j: int| 0 <= j < i ==> folded(#[trigger] range[j]) == folded(wanted@[j]),
        decreases wanted@.len() - i,
    {
        if fold(chars[lo + i]) != fold(wanted[i]) {
            assert(folded(range[i as int]) != folded(wanted@[i as int]));
            return false;
        }
        i = i + 1;
    }
    true
}

/// Whether a response with this content type header is a `text/event-stream`.
/// One without the header, or with a header that cannot be read as text, is not.
pub fn is_event_stream(content_type: Option<&[u8]>) -> (event_stream: bool)
    ensures
        event_stream == (content_type matches Some(raw) && header_text(raw@) matches Some(text)
            && names_event_stream(text)),
{
    let raw: &[u8] = match content_type {
        Some(raw) => raw,
        None => {
            return false;
        },
    };
    let chars = match header_characters(raw) {
        Some(chars) => chars,
        None => {
            return false;
        },
    };
    let mut hi: usize = 0;
    while hi < chars.len() && chars[hi] != ';'
        invariant
            hi <= chars@.len(),
            forall|j: int| 0 <= j < hi ==> #[trigger] chars@[j] != ';',
        decreases chars@.len() - hi,
    {
        hi = hi + 1;
    }
    let mut lo: usize = 0;
    proof {
        lemma_before(chars@, ';', hi as int);
        assert(chars@.subrange(0, hi as int) =~= chars@.take(hi as int));
    }
    let ghost media = media_type(chars@);
    while lo < hi && white_space(chars[lo])
        invariant
            lo <= hi <= chars@.len(),
            media == trimmed(chars@.subrange(lo as int, hi as int)),
        decreases hi - lo,
    {
        assert(chars@.subrange(lo as int, hi as int).drop_first() =~= chars@.subrange(
            lo + 1,
            hi as int,
        ));
        lo = lo + 1;
    }
    while lo < hi && white_space(chars[hi - 1])
        invariant
            lo <= hi <= chars@.len(),
            lo < hi ==> !is_white_space(chars@[lo as int]),
            media == trimmed(chars@.subrange(lo as int, hi as int)),
        decreases hi - lo,
    {
        assert(chars@.subrange(lo as int, hi as int).drop_last() =~= chars@.subrange(
            lo as int,
            hi - 1,
        ));
        hi = hi - 1;
    }
    assert(media =~= chars@.subrange(lo as int, hi as int));
    let wanted = characters("text/event-stream");
    same_text(&chars, lo, hi, &wanted)
}

/// Where the part of a text before a character ends.
proof fn lemma_before_ends(text: Seq<char>, end: char) -> (i: int)
    ensures
        0 <= i <= text.len(),
        forall|j: int| 0 <= j < i ==> #[trigger] text[j] != end,
        i < text.len() ==> text[i] == end,
    decreases text.len(),
{
    if text.len() == 0 || text.first() == end {
        0
    } else {
        let rest = text.drop_first();
        let i = lemma_before_ends(rest, end);
        assert forall|j: int| 0 <= j < i + 1 implies #[trigger] text[j] != end by {
            if j > 0 {
                assert(rest[j - 1] == text[j]);
            }
        }
        i + 1
    }
}

/// What trimming takes away is white space at both ends.
proof fn lemma_trimmed_ends(text: Seq<char>) -> (ends: (Seq<char>, Seq<char>))
    ensures
        text == ends.0 + trimmed(text) + ends.1,
        forall|j: int| 0 <= j < ends.0.len() ==> is_white_space(#[trigger] ends.0[j]),
        forall|j: int| 0 <= j < ends.1.len() ==> is_white_space(#[trigger] ends.1[j]),
    decreases text.len(),
{
    if text.len() == 0 {
        assert(text =~= Seq::<char>::empty() + text + Seq::<char>::empty());
        (Seq::empty(), Seq::empty())
    } else if is_white_space(text.first()) {
        let (front, back) = lemma_trimmed_ends(text.drop_first());
        let longer = seq![text.first()] + front;
        assert(text =~= seq![text.first()] + text.drop_first());
        assert(text =~= longer + trimmed(text) + back);
        (longer, back)
    } else if is_white_space(text.last()) {
        let (front, back) = lemma_trimmed_ends(text.drop_last());
        let longer = back.push(text.last());
        assert(text =~= text.drop_last().push(text.last()));
        assert(text =~= front + trimmed(text) + longer);
        (front, longer)
    } else {
        assert(text =~= Seq::<char>::empty() + text + Seq::<char>::empty());
        (Seq::empty(), Seq::empty())
    }
}

/// A text between white space is what trimming leaves.
proof fn lemma_trimmed_found(text: Seq<char>, lo: int, hi: int)
    requires
        0 <= lo < hi <= text.len(),
        forall|j: int| 0 <= j < lo ==> is_white_space(#[trigger] text[j]),
        forall|j: int| hi <= j < text.len() ==> is_white_space(#[trigger] text[j]),
        !is_white_space(text[lo]),
        !is_white_space(text[hi - 1]),
    ensures
        trimmed(text) == text.subrange(lo, hi),
    decreases text.len(),
{
    if lo > 0 {
        let rest = text.drop_first();
        assert forall|j: int| 0 <= j < lo - 1 implies is_white_space(#[trigger] rest[j]) by {
            assert(rest[j] == text[j + 1]);
        }
        assert forall|j: int| hi - 1 <= j < rest.len() implies is_white_space(
            #[trigger] rest[j],
        ) by {
            assert(rest[j] == text[j + 1]);
        }
        lemma_trimmed_found(rest, lo - 1, hi - 1);
        assert(text.subrange(lo, hi) =~= rest.subrange(lo - 1, hi - 1));
    } else if hi < text.len() {
        let rest = text.drop_last();
        assert forall|j: int| hi <= j < rest.len() implies is_white_space(#[trigger] rest[j]) by {
            assert(rest[j] == text[j]);
        }
        lemma_trimmed_found(rest, lo, hi);
        assert(text.subrange(lo, hi) =~= rest.subrange(lo, hi));
    } else {
        assert(text.subrange(lo, hi) =~= text);
    }
}

/// The characters of the name of event streams are lower-case letters, a slash
/// and a hyphen.
proof fn lemma_event_stream_name(k: int)
    requires
        0 <= k < 17,
    ensures
        "text/event-stream"@.len() == 17,
        ({
            let c = "text/event-stream"@[k];
            'a' <= c <= 'z' || c == '/' || c == '-'
        }),
{
    reveal_strlit("text/event-stream");
}

/// The header of an event stream is all visible ASCII, spaces and tabs, and
/// starts with `text/event-stream`, in upper or lower case, with nothing but
/// spaces and tabs around it up to a semicolon or the end.
pub proof fn law_event_streams_have_the_name(raw: Seq<u8>) -> (place: (int, int))
    requires
        header_text(raw) matches Some(text) && names_event_stream(text),
    ensures
        ({
            let name = "text/event-stream"@;
            let (lo, end) = place;
            &&& 0 <= lo
            &&& lo + 17 <= end <= raw.len()
            &&& forall|i: int|
                0 <= i < raw.len() ==> 0x20 <= #[trigger] raw[i] <= 0x7e || raw[i] == 0x09
            &&& forall|i: int| 0 <= i < lo ==> #[trigger] raw[i] == 0x20 || raw[i] == 0x09
            &&& forall|k: int|
                0 <= k < 17 ==> {
                    let b = raw[lo + k];
                    b == #[trigger] name[k] as u32 || 0x41 <= b <= 0x5a && b + 0x20
                        == name[k] as u32
                }
            &&& forall|i: int| lo + 17 <= i < end ==> #[trigger] raw[i] == 0x20 || raw[i] == 0x09
            &&& end < raw.len() ==> raw[end] == 0x3b
        }),
{
    let name = "text/event-stream"@;
    let chars = raw.map_values(|b: u8| b as char);
    lemma_event_stream_name(0);
    assert forall|i: int| 0 <= i < raw.len() implies 0x20 <= #[trigger] raw[i] <= 0x7e || raw[i]
        == 0x09 by {
        assert(is_readable_byte(raw[i]));
    }
    let end = lemma_before_ends(chars, ';');
    lemma_before(chars, ';', end);
    let head = chars.take(end);
    let (front, back) = lemma_trimmed_ends(head);
    let lo = front.len() as int;
    assert forall|k: int| 0 <= k < 17 implies {
        let b = raw[lo + k];
        b == #[trigger] name[k] as u32 || 0x41 <= b <= 0x5a && b + 0x20 == name[k] as u32
    } by {
        lemma_event_stream_name(k);
        assert(folded(trimmed(head)[k]) == folded(name[k]));
        assert(trimmed(head)[k] == head[lo + k]);
        assert(head[lo + k] == raw[lo + k] as char);
    }
    assert forall|i: int| 0 <= i < lo implies #[trigger] raw[i] == 0x20 || raw[i] == 0x09 by {
        assert(is_white_space(front[i]));
        assert(front[i] == head[i]);
        assert(head[i] == raw[i] as char);
    }
    assert forall|i: int| lo + 17 <= i < end implies #[trigger] raw[i] == 0x20 || raw[i]
        == 0x09 by {
        assert(is_white_space(back[i - lo - 17]));
        assert(back[i - lo - 17] == head[i]);
        assert(head[i] == raw[i] as char);
    }
    if end < raw.len() {
        assert(chars[end] == raw[end] as char);
    }
    (lo, end)
}

/// A header of visible ASCII, spaces and tabs that starts with
/// `text/event-stream`, in upper or lower case, with nothing but spaces and tabs
/// around it up to a semicolon or the end, is that of an event stream.
pub proof fn law_headers_with_the_name_are_event_streams(raw: Seq<u8>, lo: int, end: int)
    requires
        0 <= lo,
        lo + 17 <= end <= raw.len(),
        forall|i: int| 0 <= i < raw.len() ==> 0x20 <= #[trigger] raw[i] <= 0x7e || raw[i] == 0x09,
        forall|i: int| 0 <= i < lo ==> #[trigger] raw[i] == 0x20 || raw[i] == 0x09,
        forall|k: int|
            0 <= k < 17 ==> {
                let b = raw[lo + k];
                ||| b == #[trigger] "text/event-stream"@[k] as u32
                ||| 0x41 <= b <= 0x5a && b + 0x20 == "text/event-stream"@[k] as u32
            },
        forall|i: int| lo + 17 <= i < end ==> #[trigger] raw[i] == 0x20 || raw[i] == 0x09,
        end < raw.len() ==> raw[end] == 0x3b,
    ensures
        header_text(raw) matches Some(text) && names_event_stream(text),
{
    let name = "text/event-stream"@;
    let chars = raw.map_values(|b: u8| b as char);
    let head = chars.take(end);
    lemma_event_stream_name(0);
    lemma_event_stream_name(16);
    assert forall|j: int| 0 <= j < end implies #[trigger] chars[j] != ';' by {
        assert(chars[j] == raw[j] as char);
        if lo <= j < lo + 17 {
            lemma_event_stream_name(j - lo);
            assert(raw[lo + (j - lo)] == raw[j]);
        }
    }
    if end < raw.len() {
        assert(chars[end] == raw[end] as char);
    }
    lemma_before(chars, ';', end);
    assert forall|j: int| 0 <= j < lo implies is_white_space(#[trigger] head[j]) by {
        assert(head[j] == raw[j] as char);
    }
    assert forall|j: int| lo + 17 <= j < head.len() implies is_white_space(#[trigger] head[j]) by {
        assert(head[j] == raw[j] as char);
    }
    assert(head[lo] == raw[lo + 0] as char);
    assert(head[lo + 16] == raw[lo + 16] as char);
    lemma_trimmed_found(head, lo, lo + 17);
    assert forall|k: int| 0 <= k < 17 implies folded(#[trigger] trimmed(head)[k]) == folded(
        name[k],
    ) by {
        lemma_event_stream_name(k);
        assert(trimmed(head)[k] == raw[lo + k] as char);
    }
}

} // verus!
