//! JSON objects read member by member, with repeated keys kept.
//!
//! Strings and skipped values are read by `serde_json`; how members make up an object is stated
//! and checked here.

use vstd::prelude::*;

verus! {

/// What `serde_json` reads as a string at the start of the bytes, after white space: its
/// characters, and the offset just behind its closing quote.
pub uninterp spec fn json_string_prefix(bytes: Seq<u8>) -> Option<(Seq<char>, int)>;

/// What `serde_json` skips as one value of any type at the start of the bytes, after white space:
/// the offset just behind it.
pub uninterp spec fn json_value_prefix(bytes: Seq<u8>) -> Option<int>;

/// The first item of `serde_json::Deserializer::from_slice(bytes).into_iter::<String>()` with the
/// stream's `byte_offset`, or nothing when the bytes do not start with a string. A string that was
/// read takes at least one byte and ends inside the slice.
#[verifier::external_body]
fn read_string(bytes: &[u8]) -> (read: Option<(String, usize)>)
    ensures
        match read {
            Some((text, end)) => json_string_prefix(bytes@) == Some((text@, end as int)) && 0 < end
                <= bytes@.len(),
            None => json_string_prefix(bytes@) is None,
        },
{
    let mut stream = serde_json::Deserializer::from_slice(bytes).into_iter::<String>();
    match stream.next() {
        Some(Ok(text)) => Some((text, stream.byte_offset())),
        _ => None,
    }
}

/// The first item of `serde_json::Deserializer::from_slice(bytes).into_iter::<IgnoredAny>()` as
/// the stream's `byte_offset`, or nothing when the bytes do not start with a value. A value that
/// was skipped takes at least one byte and ends inside the slice.
#[verifier::external_body]
fn skip_value(bytes: &[u8]) -> (end: Option<usize>)
    ensures
        match end {
            Some(end) => json_value_prefix(bytes@) == Some(end as int) && 0 < end <= bytes@.len(),
            None => json_value_prefix(bytes@) is None,
        },
{
    let mut stream = serde_json::Deserializer::from_slice(bytes).into_iter::<serde::de::IgnoredAny>();
    match stream.next() {
        Some(Ok(_)) => Some(stream.byte_offset()),
        _ => None,
    }
}

/// The four bytes that JSON treats as white space.
pub open spec fn is_json_space(byte: u8) -> bool {
    byte == 32 || byte == 9 || byte == 10 || byte == 13
}

/// The first offset at or behind `at` that holds no white space.
pub open spec fn skip_space(bytes: Seq<u8>, at: int) -> int
    decreases bytes.len() - at,
{
    if 0 <= at < bytes.len() && is_json_space(bytes[at]) {
        skip_space(bytes, at + 1)
    } else {
        at
    }
}

/// One member of an object: its key, and the range of its value with the white space before it.
pub struct MemberView {
    pub key: Seq<char>,
    pub start: int,
    pub end: int,
}

/// The members of an object from the offset of a key on, and the offset behind the closing brace.
pub open spec fn members_from(bytes: Seq<u8>, at: int) -> Option<(Seq<MemberView>, int)>
    decreases bytes.len() - at,
{
    match member_at(bytes, at) {
        None => None,
        Some(member) => {
            let next = skip_space(bytes, member.end);
            if !(at < next < bytes.len()) {
                None
            } else if bytes[next] == 125 {
                Some((seq![member], next + 1))
            } else if bytes[next] == 44 {
                match members_from(bytes, next + 1) {
                    None => None,
                    Some((rest, end)) => Some((seq![member] + rest, end)),
                }
            } else {
                None
            }
        },
    }
}

/// A key, a colon and a value.
pub open spec fn member_at(bytes: Seq<u8>, at: int) -> Option<MemberView> {
    match json_string_prefix(bytes.skip(at)) {
        None => None,
        Some((key, key_end)) => {
            let colon = skip_space(bytes, at + key_end);
            if !(0 <= colon < bytes.len()) || bytes[colon] != 58 {
                None
            } else {
                match json_value_prefix(bytes.skip(colon + 1)) {
                    None => None,
                    Some(value_end) => Some(
                        MemberView { key, start: colon + 1, end: colon + 1 + value_end },
                    ),
                }
            }
        },
    }
}

/// The members of the object that the bytes hold, if they hold exactly one.
pub open spec fn object_members(bytes: Seq<u8>) -> Option<Seq<MemberView>> {
    let open = skip_space(bytes, 0);
    if !(open < bytes.len()) || bytes[open] != 123 {
        None
    } else {
        let first = skip_space(bytes, open + 1);
        let members = if first < bytes.len() && bytes[first] == 125 {
            Some((Seq::<MemberView>::empty(), first + 1))
        } else {
            members_from(bytes, open + 1)
        };
        match members {
            Some((members, end)) if skip_space(bytes, end) == bytes.len() => Some(members),
            _ => None,
        }
    }
}

/// The characters of the string that the bytes hold.
pub open spec fn string_value(bytes: Seq<u8>) -> Option<Seq<char>> {
    match json_string_prefix(bytes) {
        Some((text, _)) => Some(text),
        None => None,
    }
}

/// The bytes of a member's value.
pub open spec fn member_value(bytes: Seq<u8>, member: MemberView) -> Seq<u8> {
    bytes.subrange(member.start, member.end)
}

/// One member of an object: its key, and the range of its value with the white space before it.
#[derive(Debug)]
pub struct JsonMember {
    pub key: String,
    pub start: usize,
    pub end: usize,
}

impl View for JsonMember {
    type V = MemberView;

    open spec fn view(&self) -> MemberView {
        MemberView { key: self.key@, start: self.start as int, end: self.end as int }
    }
}

/// The members as their views.
pub open spec fn member_views(members: Seq<JsonMember>) -> Seq<MemberView> {
    members.map_values(|member: JsonMember| member@)
}

/// Finds the first byte at or behind `at` that is no white space.
fn after_space(bytes: &[u8], at: usize) -> (next: usize)
    requires
        at <= bytes@.len(),
    ensures
        next == skip_space(bytes@, at as int),
        at <= next <= bytes@.len(),
{
    let mut next: usize = at;
    while next < bytes.len() && (bytes[next] == 32 || bytes[next] == 9 || bytes[next] == 10
        || bytes[next] == 13)
        invariant
            at <= next <= bytes@.len(),
            skip_space(bytes@, next as int) == skip_space(bytes@, at as int),
        decreases bytes@.len() - next,
    {
        next = next + 1;
    }
    next
}

/// Reads one member at the offset of its key.
fn read_member(bytes: &[u8], at: usize) -> (member: Option<JsonMember>)
    requires
        at <= bytes@.len(),
    ensures
        match member {
            Some(member) => member_at(bytes@, at as int) == Some(member@) && at < member.start
                <= member.end <= bytes@.len(),
            None => member_at(bytes@, at as int) is None,
        },
{
    let rest: &[u8] = vstd::slice::slice_subrange(bytes, at, bytes.len());
    assert(rest@ =~= bytes@.skip(at as int));
    let (key, key_end): (String, usize) = match read_string(rest) {
        Some(read) => read,
        None => {
            return None;
        },
    };
    let colon: usize = after_space(bytes, at + key_end);
    if colon >= bytes.len() || bytes[colon] != 58 {
        return None;
    }
    let start: usize = colon + 1;
    let rest: &[u8] = vstd::slice::slice_subrange(bytes, start, bytes.len());
    assert(rest@ =~= bytes@.skip(start as int));
    match skip_value(rest) {
        Some(value_end) => Some(JsonMember { key, start, end: start + value_end }),
        None => None,
    }
}

/// Reads the members of an object from the offset of a key on, up to its closing brace.
fn read_members(bytes: &[u8], from: usize) -> (read: Option<(Vec<JsonMember>, usize)>)
    requires
        from <= bytes@.len(),
    ensures
        match read {
            Some((members, end)) => {
                &&& members_from(bytes@, from as int) == Some(
                    (member_views(members@), end as int),
                )
                &&& end <= bytes@.len()
                &&& forall|i: int|
                    0 <= i < members@.len() ==> (#[trigger] members@[i]).start <= members@[i].end
                        <= bytes@.len()
            },
            None => members_from(bytes@, from as int) is None,
        },
{
    let mut members: Vec<JsonMember> = Vec::new();
    let mut at: usize = from;
    assert(members_from(bytes@, at as int) matches Some((rest, end)) ==> member_views(members@)
        + rest =~= rest);
    loop
        invariant
            at <= bytes@.len(),
            forall|i: int|
                0 <= i < members@.len() ==> (#[trigger] members@[i]).start <= members@[i].end
                    <= bytes@.len(),
            members_from(bytes@, from as int) == (match members_from(bytes@, at as int) {
                Some((rest, end)) => Some((member_views(members@) + rest, end)),
                None => None::<(Seq<MemberView>, int)>,
            }),
        decreases bytes@.len() - at,
    {
        let member: JsonMember = match read_member(bytes, at) {
            Some(member) => member,
            None => {
                return None;
            },
        };
        let next: usize = after_space(bytes, member.end);
        if next >= bytes.len() {
            return None;
        }
        let separator: u8 = bytes[next];
        let ghost before = members@;
        let ghost view = member@;
        members.push(member);
        assert(member_views(members@) =~= member_views(before).push(view));
        if separator == 125 {
            assert(member_views(before) + seq![view] =~= member_views(members@));
            return Some((members, next + 1));
        }
        if separator != 44 {
            return None;
        }
        at = next + 1;
        proof {
            if let Some((rest, end)) = members_from(bytes@, at as int) {
                assert(member_views(before) + (seq![view] + rest) =~= member_views(members@)
                    + rest);
            }
        }
    }
}

/// Reads the one object that the bytes hold.
pub fn read_object(bytes: &[u8]) -> (members: Option<Vec<JsonMember>>)
    ensures
        match members {
            Some(members) => {
                &&& object_members(bytes@) == Some(member_views(members@))
                &&& forall|i: int|
                    0 <= i < members@.len() ==> (#[trigger] members@[i]).start <= members@[i].end
                        <= bytes@.len()
            },
            None => object_members(bytes@) is None,
        },
{
    let open: usize = after_space(bytes, 0);
    if open >= bytes.len() || bytes[open] != 123 {
        return None;
    }
    let first: usize = after_space(bytes, open + 1);
    let (members, end): (Vec<JsonMember>, usize) = if first < bytes.len() && bytes[first] == 125 {
        let members: Vec<JsonMember> = Vec::new();
        assert(member_views(members@) =~= Seq::<MemberView>::empty());
        (members, first + 1)
    } else {
        match read_members(bytes, open + 1) {
            Some(read) => read,
            None => {
                return None;
            },
        }
    };
    if after_space(bytes, end) == bytes.len() {
        Some(members)
    } else {
        None
    }
}

/// Reads the string that the bytes hold.
pub fn read_text(bytes: &[u8]) -> (text: Option<String>)
    ensures
        match text {
            Some(text) => string_value(bytes@) == Some(text@),
            None => string_value(bytes@) is None,
        },
{
    match read_string(bytes) {
        Some((text, _)) => Some(text),
        None => None,
    }
}

/// Whether nothing but spaces, tabs, line feeds and carriage returns stands between two offsets.
pub open spec fn only_space(bytes: Seq<u8>, from: int, to: int) -> bool {
    forall|i: int|
        from <= i < to ==> (#[trigger] bytes[i]) == 32 || bytes[i] == 9 || bytes[i] == 10
            || bytes[i] == 13
}

/// Where a member of an object is written: its key, its colon, its value, and the comma or brace
/// behind it.
pub struct WrittenMember {
    pub key: Seq<char>,
    pub key_at: int,
    pub key_len: int,
    pub colon: int,
    pub value_len: int,
    pub next: int,
}

impl WrittenMember {
    /// Where the value ends.
    pub open spec fn value_end(self) -> int {
        self.colon + 1 + self.value_len
    }
}

/// Whether a member is written so: a string, a colon and a value, with nothing but white space
/// between them.
pub open spec fn is_written(bytes: Seq<u8>, member: WrittenMember) -> bool {
    &&& 0 <= member.key_at
    &&& 0 < member.key_len
    &&& 0 < member.value_len
    &&& json_string_prefix(bytes.skip(member.key_at)) == Some((member.key, member.key_len))
    &&& member.key_at + member.key_len <= member.colon < bytes.len()
    &&& only_space(bytes, member.key_at + member.key_len, member.colon)
    &&& bytes[member.colon] == 58
    &&& json_value_prefix(bytes.skip(member.colon + 1)) == Some(member.value_len)
    &&& member.value_end() <= member.next < bytes.len()
    &&& only_space(bytes, member.value_end(), member.next)
}

/// Whether members are written one after the other, with commas between them.
pub open spec fn are_written(bytes: Seq<u8>, members: Seq<WrittenMember>) -> bool {
    &&& forall|i: int| 0 <= i < members.len() ==> #[trigger] is_written(bytes, members[i])
    &&& forall|i: int| 0 <= i < members.len() - 1 ==> bytes[(#[trigger] members[i]).next] == 44
    &&& forall|i: int, j: int|
        0 <= i < j < members.len() && j == i + 1 ==> (#[trigger] members[j]).key_at == (
        #[trigger] members[i]).next + 1
}

/// Whether the bytes are an object that is written so: a brace, the members with commas between
/// them, and a brace, with nothing but white space around.
pub open spec fn is_object_text(
    bytes: Seq<u8>,
    open: int,
    members: Seq<WrittenMember>,
    close: int,
) -> bool {
    &&& 0 <= open < close < bytes.len()
    &&& only_space(bytes, 0, open)
    &&& bytes[open] == 123
    &&& bytes[close] == 125
    &&& only_space(bytes, close + 1, bytes.len() as int)
    &&& if members.len() == 0 {
        only_space(bytes, open + 1, close)
    } else {
        &&& members[0].key_at == open + 1
        &&& members.last().next == close
        &&& are_written(bytes, members)
        &&& forall|i: int|
            open < i < bytes.len() && only_space(bytes, open + 1, i) ==> #[trigger] bytes[i] != 125
    }
}

proof fn lemma_skip_space(bytes: Seq<u8>, from: int, to: int)
    requires
        0 <= from <= to <= bytes.len(),
        only_space(bytes, from, to),
        to < bytes.len() ==> !only_space(bytes, to, to + 1),
    ensures
        skip_space(bytes, from) == to,
    decreases to - from,
{
    if from < to {
        assert(bytes[from] == 32 || bytes[from] == 9 || bytes[from] == 10 || bytes[from] == 13);
        lemma_skip_space(bytes, from + 1, to);
    } else if from < bytes.len() {
        let i = choose|i: int|
            from <= i < from + 1 && !((#[trigger] bytes[i]) == 32 || bytes[i] == 9 || bytes[i] == 10
                || bytes[i] == 13);
        assert(i == from);
    }
}

proof fn lemma_skipped_space(bytes: Seq<u8>, from: int)
    ensures
        from <= skip_space(bytes, from),
        only_space(bytes, from, skip_space(bytes, from)),
        0 <= skip_space(bytes, from) < bytes.len() ==> !is_json_space(
            bytes[skip_space(bytes, from)],
        ),
    decreases bytes.len() - from,
{
    if from < bytes.len() && is_json_space(bytes[from]) {
        lemma_skipped_space(bytes, from + 1);
    }
}

/// What a reader makes of a member that is written so.
pub open spec fn read_as(member: WrittenMember) -> MemberView {
    MemberView { key: member.key, start: member.colon + 1, end: member.value_end() }
}

proof fn lemma_written_member(bytes: Seq<u8>, member: WrittenMember)
    requires
        is_written(bytes, member),
        bytes[member.next] == 44 || bytes[member.next] == 125,
    ensures
        member_at(bytes, member.key_at) == Some(read_as(member)),
        skip_space(bytes, member.value_end()) == member.next,
{
    assert(!only_space(bytes, member.colon, member.colon + 1)) by {
        assert(bytes[member.colon] == 58);
    }
    assert(!only_space(bytes, member.next, member.next + 1)) by {
        let byte = bytes[member.next];
    }
    lemma_skip_space(bytes, member.key_at + member.key_len, member.colon);
    lemma_skip_space(bytes, member.value_end(), member.next);
}

proof fn lemma_written_members(bytes: Seq<u8>, members: Seq<WrittenMember>)
    requires
        members.len() > 0,
        are_written(bytes, members),
        bytes[members.last().next] == 125,
    ensures
        members_from(bytes, members[0].key_at) == Some(
            (
                members.map_values(|member: WrittenMember| read_as(member)),
                members.last().next + 1,
            ),
        ),
    decreases members.len(),
{
    let member = members[0];
    assert(is_written(bytes, member));
    let read = members.map_values(|member: WrittenMember| read_as(member));
    if members.len() > 1 {
        assert(bytes[members[0].next] == 44);
        lemma_written_member(bytes, member);
        assert(members[1].key_at == members[0].next + 1);
        let rest = members.drop_first();
        lemma_rest_is_written(bytes, members);
        lemma_written_members(bytes, rest);
        assert(seq![read_as(member)] + rest.map_values(|member: WrittenMember| read_as(member))
            =~= read);
    } else {
        lemma_written_member(bytes, member);
        assert(seq![read_as(member)] =~= read);
    }
}

proof fn lemma_rest_is_written(bytes: Seq<u8>, members: Seq<WrittenMember>)
    requires
        members.len() > 1,
        are_written(bytes, members),
    ensures
        are_written(bytes, members.drop_first()),
{
    let rest = members.drop_first();
    assert forall|i: int| 0 <= i < rest.len() implies #[trigger] is_written(bytes, rest[i]) by {
        assert(is_written(bytes, members[i + 1]));
    }
    assert forall|i: int| 0 <= i < rest.len() - 1 implies bytes[(#[trigger] rest[i]).next]
        == 44 by {
        assert(bytes[members[i + 1].next] == 44);
    }
    assert forall|i: int, j: int| 0 <= i < j < rest.len() && j == i + 1 implies (
    #[trigger] rest[j]).key_at == (#[trigger] rest[i]).next + 1 by {
        assert(members[j + 1].key_at == members[i + 1].next + 1);
    }
}

/// An object is read as it is written, whatever its number of members, their keys, their values,
/// and the white space between them: every member comes out, in order, with its key and the range
/// of its value.
pub proof fn law_objects_are_read_as_written(
    bytes: Seq<u8>,
    open: int,
    members: Seq<WrittenMember>,
    close: int,
)
    requires
        is_object_text(bytes, open, members, close),
    ensures
        object_members(bytes) matches Some(read) && read.len() == members.len() && (forall|i: int|
            0 <= i < members.len() ==> (#[trigger] read[i]).key == members[i].key && read[i].start
                == members[i].colon + 1 && read[i].end == members[i].colon + 1
                + members[i].value_len),
{
    assert(!only_space(bytes, open, open + 1)) by {
        assert(bytes[open] == 123);
    }
    lemma_skip_space(bytes, 0, open);
    lemma_skip_space(bytes, close + 1, bytes.len() as int);
    if members.len() == 0 {
        assert(!only_space(bytes, close, close + 1)) by {
            assert(bytes[close] == 125);
        }
        lemma_skip_space(bytes, open + 1, close);
    } else {
        let first = skip_space(bytes, open + 1);
        lemma_skipped_space(bytes, open + 1);
        if first < bytes.len() {
            assert(bytes[first] != 125);
        }
        lemma_written_members(bytes, members);
    }
}

/// Whether members that follow each other were read off the bytes so: each key is a string right
/// behind the brace or the comma before it, and between key, colon, value and comma stands nothing
/// but white space.
pub open spec fn were_read(bytes: Seq<u8>, members: Seq<WrittenMember>) -> bool {
    &&& forall|i: int| 0 <= i < members.len() ==> #[trigger] was_read(bytes, members[i])
    &&& forall|i: int| 0 <= i < members.len() - 1 ==> bytes[(#[trigger] members[i]).next] == 44
    &&& forall|i: int, j: int|
        0 <= i < j < members.len() && j == i + 1 ==> (#[trigger] members[j]).key_at == (
        #[trigger] members[i]).next + 1
}

/// Whether a member was read off the bytes so.
pub open spec fn was_read(bytes: Seq<u8>, member: WrittenMember) -> bool {
    &&& json_string_prefix(bytes.skip(member.key_at)) == Some((member.key, member.key_len))
    &&& only_space(bytes, member.key_at + member.key_len, member.colon)
    &&& 0 <= member.colon < bytes.len()
    &&& bytes[member.colon] == 58
    &&& json_value_prefix(bytes.skip(member.colon + 1)) == Some(member.value_len)
    &&& only_space(bytes, member.value_end(), member.next)
    &&& 0 <= member.next < bytes.len()
}

proof fn lemma_read_members(bytes: Seq<u8>, at: int) -> (written: Seq<WrittenMember>)
    requires
        0 <= at,
        members_from(bytes, at) is Some,
    ensures
        ({
            let (members, end) = members_from(bytes, at)->Some_0;
            &&& written.len() == members.len()
            &&& members.len() > 0
            &&& forall|i: int|
                0 <= i < written.len() ==> read_as(#[trigger] written[i]) == members[i]
            &&& were_read(bytes, written)
            &&& written[0].key_at == at
            &&& written.last().next == end - 1
            &&& 0 < end <= bytes.len()
            &&& bytes[end - 1] == 125
        }),
    decreases bytes.len() - at,
{
    let (key, key_len) = json_string_prefix(bytes.skip(at))->Some_0;
    let colon = skip_space(bytes, at + key_len);
    let value_len = json_value_prefix(bytes.skip(colon + 1))->Some_0;
    let next = skip_space(bytes, colon + 1 + value_len);
    let member = WrittenMember { key, key_at: at, key_len, colon, value_len, next };
    lemma_skipped_space(bytes, at + key_len);
    lemma_skipped_space(bytes, colon + 1 + value_len);
    assert(was_read(bytes, member));
    if bytes[next] == 125 {
        seq![member]
    } else {
        let rest = lemma_read_members(bytes, next + 1);
        let written = seq![member] + rest;
        assert forall|i: int| 0 <= i < written.len() implies #[trigger] was_read(
            bytes,
            written[i],
        ) by {
            if i > 0 {
                assert(was_read(bytes, rest[i - 1]));
            }
        }
        assert forall|i: int| 0 <= i < written.len() - 1 implies bytes[(
        #[trigger] written[i]).next] == 44 by {
            if i > 0 {
                assert(written[i] == rest[i - 1]);
            }
        }
        assert forall|i: int, j: int| 0 <= i < j < written.len() && j == i + 1 implies (
        #[trigger] written[j]).key_at == (#[trigger] written[i]).next + 1 by {
            assert(written[j] == rest[j - 1]);
            if i > 0 {
                assert(written[i] == rest[i - 1]);
            }
        }
        let (members, end) = members_from(bytes, at)->Some_0;
        let (later, later_end) = members_from(bytes, next + 1)->Some_0;
        assert(members =~= seq![read_as(member)] + later);
        assert forall|i: int| 0 <= i < written.len() implies read_as(#[trigger] written[i])
            == members[i] by {
            if i > 0 {
                assert(read_as(rest[i - 1]) == later[i - 1]);
            }
        }
        written
    }
}

/// Nothing but an object is read as one: the first byte that is no white space opens it, the last
/// one closes it, and every member that comes out was written between them, with its key, a colon
/// and its value, and a comma before the next one.
pub proof fn law_only_objects_are_read(bytes: Seq<u8>) -> (read: (int, Seq<WrittenMember>, int))
    requires
        object_members(bytes) is Some,
    ensures
        ({
            let (open, members, close) = read;
            &&& 0 <= open < bytes.len()
            &&& only_space(bytes, 0, open)
            &&& bytes[open] == 123
            &&& 0 <= close < bytes.len()
            &&& bytes[close] == 125
            &&& only_space(bytes, close + 1, bytes.len() as int)
            &&& members.len() == object_members(bytes)->Some_0.len()
            &&& members.len() == 0 ==> only_space(bytes, open + 1, close)
            &&& members.len() > 0 ==> members[0].key_at == open + 1 && members.last().next == close
            &&& were_read(bytes, members)
            &&& forall|i: int|
                0 <= i < members.len() ==> (#[trigger] members[i]).key == object_members(
                    bytes,
                )->Some_0[i].key && members[i].colon + 1 == object_members(bytes)->Some_0[i].start
                    && members[i].value_end() == object_members(bytes)->Some_0[i].end
        }),
{
    let open = skip_space(bytes, 0);
    lemma_skipped_space(bytes, 0);
    let first = skip_space(bytes, open + 1);
    lemma_skipped_space(bytes, open + 1);
    if first < bytes.len() && bytes[first] == 125 {
        lemma_skipped_space(bytes, first + 1);
        (open, Seq::empty(), first)
    } else {
        let written = lemma_read_members(bytes, open + 1);
        let (members, end) = members_from(bytes, open + 1)->Some_0;
        lemma_skipped_space(bytes, end);
        assert forall|i: int| 0 <= i < written.len() implies (#[trigger] written[i]).key
            == members[i].key by {
            assert(read_as(written[i]) == members[i]);
        }
        (open, written, end - 1)
    }
}

/// Reading an object gives its members: all of them, in order, each with its key and the range of
/// its value.
pub proof fn law_read_object_gives_the_members(
    bytes: &[u8],
    open: int,
    written: Seq<WrittenMember>,
    close: int,
    read: Option<Vec<JsonMember>>,
)
    requires
        call_ensures(read_object, (bytes,), read),
        is_object_text(bytes@, open, written, close),
    ensures
        read matches Some(members) && members@.len() == written.len() && (forall|i: int|
            0 <= i < written.len() ==> (#[trigger] members@[i]).key@ == written[i].key
                && members@[i].start == written[i].colon + 1 && members@[i].end
                == written[i].value_end()),
{
    law_objects_are_read_as_written(bytes@, open, written, close);
    if let Some(members) = read {
        assert forall|i: int| 0 <= i < written.len() implies (#[trigger] members@[i]).key@
            == written[i].key && members@[i].start == written[i].colon + 1 && members@[i].end
            == written[i].value_end() by {
            assert(member_views(members@)[i] == members@[i]@);
        }
    }
}

/// Reading a text gives the characters of the string that the bytes start with, whatever they are.
pub proof fn law_read_text_gives_the_string(bytes: &[u8], read: Option<String>)
    requires
        call_ensures(read_text, (bytes,), read),
    ensures
        json_string_prefix(bytes@) matches Some((text, _)) ==> (read matches Some(found) && found@
            == text),
        json_string_prefix(bytes@) is None ==> read is None,
{
}

} // verus!
