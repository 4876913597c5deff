//! The envelope of a rollout record: a JSON object with a `timestamp`, a `type` and a `payload`.
//!
//! Records are judged by their envelope alone. A payload is looked into only as far as its own
//! `type` member; everything else in it is skipped.

use crate::json;
use crate::json::JsonMember;
use crate::text;
use vstd::prelude::*;

verus! {

/// What the `type` members of a payload object say.
#[derive(Debug)]
pub enum PayloadKind {
    /// The payload has no `type`.
    Absent,
    /// Every `type` of the payload is a string, and this is the last one.
    Text { text: String },
    /// Some `type` of the payload is not a string.
    Invalid,
}

/// One member of a record's object, as far as envelopes are concerned.
#[derive(Debug)]
pub enum EnvelopeField {
    /// A `timestamp`, and whether it is a string.
    Timestamp { is_text: bool },
    /// A `type`, and its characters if it is a string.
    Kind { text: Option<String> },
    /// A `payload` with the range of its bytes, and its own `type` if it is an object.
    Payload { object: Option<PayloadKind>, start: usize, end: usize },
    /// A member with another key.
    Other,
}

/// [`PayloadKind`] with its text as a sequence of characters.
pub enum PayloadKindView {
    Absent,
    Text { text: Seq<char> },
    Invalid,
}

/// [`EnvelopeField`] with its texts as sequences of characters.
pub enum FieldView {
    Timestamp { is_text: bool },
    Kind { text: Option<Seq<char>> },
    Payload { object: Option<PayloadKindView>, start: int, end: int },
    Other,
}

impl View for PayloadKind {
    type V = PayloadKindView;

    open spec fn view(&self) -> PayloadKindView {
        match *self {
            PayloadKind::Absent => PayloadKindView::Absent,
            PayloadKind::Text { text } => PayloadKindView::Text { text: text@ },
            PayloadKind::Invalid => PayloadKindView::Invalid,
        }
    }
}

impl View for EnvelopeField {
    type V = FieldView;

    open spec fn view(&self) -> FieldView {
        match *self {
            EnvelopeField::Timestamp { is_text } => FieldView::Timestamp { is_text },
            EnvelopeField::Kind { text } => FieldView::Kind {
                text: match text {
                    Some(text) => Some(text@),
                    None => None,
                },
            },
            EnvelopeField::Payload { object, start, end } => FieldView::Payload {
                object: match object {
                    Some(kind) => Some(kind@),
                    None => None,
                },
                start: start as int,
                end: end as int,
            },
            EnvelopeField::Other => FieldView::Other,
        }
    }
}

/// The fields as their views.
pub open spec fn field_views(fields: Seq<EnvelopeField>) -> Seq<FieldView> {
    fields.map_values(|field: EnvelopeField| field@)
}

/// What the `type` members among these members of an object say.
pub open spec fn payload_kind(bytes: Seq<u8>, members: Seq<json::MemberView>) -> PayloadKindView
    decreases members.len(),
{
    if members.len() == 0 {
        PayloadKindView::Absent
    } else {
        let earlier = payload_kind(bytes, members.drop_last());
        if members.last().key != "type"@ || earlier is Invalid {
            earlier
        } else {
            match json::string_value(json::member_value(bytes, members.last())) {
                Some(text) => PayloadKindView::Text { text },
                None => PayloadKindView::Invalid,
            }
        }
    }
}

/// What the bytes of a payload hold, if they hold an object.
pub open spec fn payload_object(bytes: Seq<u8>) -> Option<PayloadKindView> {
    match json::object_members(bytes) {
        Some(members) => Some(payload_kind(bytes, members)),
        None => None,
    }
}

/// What one member of a record's object is to an envelope.
pub open spec fn envelope_field(record: Seq<u8>, member: json::MemberView) -> FieldView {
    let value = json::member_value(record, member);
    if member.key == "timestamp"@ {
        FieldView::Timestamp { is_text: json::string_value(value) is Some }
    } else if member.key == "type"@ {
        FieldView::Kind { text: json::string_value(value) }
    } else if member.key == "payload"@ {
        FieldView::Payload {
            object: payload_object(value),
            start: member.start,
            end: member.end,
        }
    } else {
        FieldView::Other
    }
}

/// The fields of a record, in order, if the record is one JSON object.
pub open spec fn envelope_fields(record: Seq<u8>) -> Option<Seq<FieldView>> {
    match json::object_members(record) {
        Some(members) => Some(
            members.map_values(|member: json::MemberView| envelope_field(record, member)),
        ),
        None => None,
    }
}

/// Whether the range of a payload lies within `len` bytes.
pub open spec fn payload_within(field: EnvelopeField, len: nat) -> bool {
    field matches EnvelopeField::Payload { start, end, .. } ==> start <= end <= len
}

/// Whether the ranges of all payloads lie within `len` bytes.
pub open spec fn payloads_within(fields: Seq<EnvelopeField>, len: nat) -> bool {
    forall|i: int| 0 <= i < fields.len() ==> payload_within(#[trigger] fields[i], len)
}

fn read_payload_kind(bytes: &[u8], members: &Vec<JsonMember>) -> (kind: PayloadKind)
    requires
        forall|i: int|
            0 <= i < members@.len() ==> (#[trigger] members@[i]).start <= members@[i].end
                <= bytes@.len(),
    ensures
        kind@ == payload_kind(bytes@, json::member_views(members@)),
{
    let mut kind: PayloadKind = PayloadKind::Absent;
    let ghost views = json::member_views(members@);
    let mut i: usize = 0;
    while i < members.len()
        invariant
            i <= members@.len(),
            views == json::member_views(members@),
            kind@ == payload_kind(bytes@, views.take(i as int)),
            forall|i: int|
                0 <= i < members@.len() ==> (#[trigger] members@[i]).start <= members@[i].end
                    <= bytes@.len(),
        decreases members@.len() - i,
    {
        proof {
            assert(views.take(i + 1).drop_last() =~= views.take(i as int));
            assert(views.take(i + 1).last() == members@[i as int]@);
        }
        let member: &JsonMember = &members[i];
        let invalid: bool = matches!(kind, PayloadKind::Invalid);
        if !invalid && text::same_text(member.key.as_str(), "type") {
            let value: &[u8] = vstd::slice::slice_subrange(bytes, member.start, member.end);
            kind = match json::read_text(value) {
                Some(text) => PayloadKind::Text { text },
                None => PayloadKind::Invalid,
            };
        }
        i = i + 1;
    }
    assert(views.take(i as int) =~= views);
    kind
}

fn read_field(record: &[u8], member: &JsonMember) -> (field: EnvelopeField)
    requires
        member.start <= member.end <= record@.len(),
    ensures
        field@ == envelope_field(record@, member@),
{
    let value: &[u8] = vstd::slice::slice_subrange(record, member.start, member.end);
    let key: &str = member.key.as_str();
    if text::same_text(key, "timestamp") {
        EnvelopeField::Timestamp { is_text: json::read_text(value).is_some() }
    } else if text::same_text(key, "type") {
        EnvelopeField::Kind { text: json::read_text(value) }
    } else if text::same_text(key, "payload") {
        let object: Option<PayloadKind> = match json::read_object(value) {
            Some(members) => Some(read_payload_kind(value, &members)),
            None => None,
        };
        EnvelopeField::Payload { object, start: member.start, end: member.end }
    } else {
        EnvelopeField::Other
    }
}

/// Reads the fields of a record.
pub fn read_fields(record: &[u8]) -> (fields: Option<Vec<EnvelopeField>>)
    ensures
        match fields {
            Some(fields) => {
                &&& envelope_fields(record@) == Some(field_views(fields@))
                &&& payloads_within(fields@, record@.len())
            },
            None => envelope_fields(record@) is None,
        },
{
    let members: Vec<JsonMember> = match json::read_object(record) {
        Some(members) => members,
        None => {
            return None;
        },
    };
    let mut fields: Vec<EnvelopeField> = Vec::new();
    let ghost views = json::member_views(members@);
    let mut i: usize = 0;
    while i < members.len()
        invariant
            i <= members@.len(),
            fields@.len() == i,
            views == json::member_views(members@),
            forall|j: int|
                0 <= j < i ==> (#[trigger] fields@[j])@ == envelope_field(record@, views[j]),
            forall|i: int|
                0 <= i < members@.len() ==> (#[trigger] members@[i]).start <= members@[i].end
                    <= record@.len(),
        decreases members@.len() - i,
    {
        let field: EnvelopeField = read_field(record, &members[i]);
        fields.push(field);
        i = i + 1;
    }
    proof {
        assert(field_views(fields@) =~= views.map_values(
            |member: json::MemberView| envelope_field(record@, member),
        ));
        assert forall|i: int| 0 <= i < fields@.len() implies payload_within(
            #[trigger] fields@[i],
            record@.len(),
        ) by {
            assert(fields@[i]@ == envelope_field(record@, views[i]));
            assert(views[i] == members@[i]@);
        }
    }
    Some(fields)
}

/// What the `type` members of a payload say: nothing if there are none, something invalid if one of
/// them is no string, and else the characters of the last one, whatever other members there are.
pub proof fn law_last_type_of_a_payload_counts(
    bytes: Seq<u8>,
    members: Seq<json::MemberView>,
    last: int,
)
    ensures
        payload_kind(bytes, members) is Absent <==> (forall|i: int|
            0 <= i < members.len() ==> (#[trigger] members[i]).key != "type"@),
        payload_kind(bytes, members) is Invalid <==> (exists|i: int|
            0 <= i < members.len() && (#[trigger] members[i]).key == "type"@
                && json::json_string_prefix(bytes.subrange(members[i].start, members[i].end))
                is None),
        0 <= last < members.len() && members[last].key == "type"@ && (forall|i: int|
            last < i < members.len() ==> (#[trigger] members[i]).key != "type"@) && payload_kind(
            bytes,
            members,
        ) !is Invalid ==> payload_kind(bytes, members) == (PayloadKindView::Text {
            text: json::json_string_prefix(
                bytes.subrange(members[last].start, members[last].end),
            )->Some_0.0,
        }),
    decreases members.len(),
{
    if members.len() > 0 {
        let earlier = members.drop_last();
        let end = members.len() - 1;
        law_last_type_of_a_payload_counts(bytes, earlier, last);
        assert(forall|i: int| 0 <= i < earlier.len() ==> earlier[i] == #[trigger] members[i]);
        assert(members[end] == members.last());
        assert(json::member_value(bytes, members.last()) == bytes.subrange(
            members[end].start,
            members[end].end,
        ));
        if payload_kind(bytes, earlier) is Invalid {
            let i = choose|i: int|
                0 <= i < earlier.len() && (#[trigger] earlier[i]).key == "type"@
                    && json::json_string_prefix(bytes.subrange(earlier[i].start, earlier[i].end))
                    is None;
            assert(members[i].key == "type"@);
        } else if exists|i: int|
            0 <= i < members.len() && (#[trigger] members[i]).key == "type"@
                && json::json_string_prefix(bytes.subrange(members[i].start, members[i].end))
                is None {
            let i = choose|i: int|
                0 <= i < members.len() && (#[trigger] members[i]).key == "type"@
                    && json::json_string_prefix(bytes.subrange(members[i].start, members[i].end))
                    is None;
            if i < end {
                assert(earlier[i].key == "type"@);
                assert(false);
            }
        }
        if payload_kind(bytes, earlier) is Absent && members[end].key != "type"@ {
            assert forall|i: int| 0 <= i < members.len() implies (#[trigger] members[i]).key
                != "type"@ by {
                if i < end {
                    assert(earlier[i].key != "type"@);
                }
            }
        }
        if forall|i: int| 0 <= i < members.len() ==> (#[trigger] members[i]).key != "type"@ {
            assert forall|i: int| 0 <= i < earlier.len() implies (#[trigger] earlier[i]).key
                != "type"@ by {
                assert(members[i].key != "type"@);
            }
        }
        if 0 <= last < end && (forall|i: int|
            last < i < members.len() ==> (#[trigger] members[i]).key != "type"@) {
            assert forall|i: int| last < i < earlier.len() implies (#[trigger] earlier[i]).key
                != "type"@ by {
                assert(members[i].key != "type"@);
            }
        }
    }
}

/// Bytes are a payload object exactly where they are one JSON object, whatever the number, the keys
/// and the values of its members.
pub proof fn law_every_object_is_a_payload(bytes: Seq<u8>)
    ensures
        payload_object(bytes) is Some <==> json::object_members(bytes) is Some,
        json::object_members(bytes) matches Some(members) ==> payload_object(bytes) == Some(
            payload_kind(bytes, members),
        ),
{
}

/// The fields of a record are the members of its object, in order: `timestamp` and `type` say
/// whether their values are strings, `type` also which, `payload` says whether its value is an
/// object and where it stands, and every other member is left aside.
pub proof fn law_fields_are_the_members(
    record: &[u8],
    fields: Option<Vec<EnvelopeField>>,
    i: int,
)
    requires
        call_ensures(read_fields, (record,), fields),
    ensures
        fields is Some <==> json::object_members(record@) is Some,
        fields matches Some(fields) ==> {
            let members = json::object_members(record@)->Some_0;
            &&& fields@.len() == members.len()
            &&& 0 <= i < members.len() ==> {
                let value = record@.subrange(members[i].start, members[i].end);
                let key = members[i].key;
                &&& key == "timestamp"@ ==> fields@[i]@ == (FieldView::Timestamp {
                    is_text: json::json_string_prefix(value) is Some,
                })
                &&& key == "type"@ ==> fields@[i]@ == (FieldView::Kind {
                    text: match json::json_string_prefix(value) {
                        Some((text, _)) => Some(text),
                        None => None,
                    },
                })
                &&& key == "payload"@ ==> (fields@[i]@ matches FieldView::Payload {
                    object,
                    start,
                    end,
                } && start == members[i].start && end == members[i].end && (object is Some
                    <==> json::object_members(value) is Some))
                &&& key != "timestamp"@ && key != "type"@ && key != "payload"@ ==> fields@[i]@
                    == FieldView::Other
            }
        },
{
    if let Some(fields) = fields {
        let members = json::object_members(record@)->Some_0;
        law_record_fields(record@, i);
        assert(field_views(fields@).len() == fields@.len());
        if 0 <= i < members.len() {
            assert(field_views(fields@)[i] == fields@[i]@);
            law_fields_by_key(record@, members[i]);
        }
    }
}

/// What one member is to an envelope depends on its key and its value alone.
pub proof fn law_fields_by_key(record: Seq<u8>, member: json::MemberView)
    ensures
        ({
            let value = record.subrange(member.start, member.end);
            let field = envelope_field(record, member);
            &&& member.key == "timestamp"@ ==> field == (FieldView::Timestamp {
                is_text: json::json_string_prefix(value) is Some,
            })
            &&& member.key == "type"@ ==> field == (FieldView::Kind {
                text: match json::json_string_prefix(value) {
                    Some((text, _)) => Some(text),
                    None => None,
                },
            })
            &&& member.key == "payload"@ ==> (field matches FieldView::Payload {
                object,
                start,
                end,
            } && start == member.start && end == member.end && (object is Some
                <==> json::object_members(value) is Some))
            &&& member.key != "timestamp"@ && member.key != "type"@ && member.key != "payload"@
                ==> field == FieldView::Other
        }),
{
    reveal_strlit("timestamp");
    reveal_strlit("type");
    reveal_strlit("payload");
    assert("timestamp"@.len() == 9);
    assert("type"@.len() == 4);
    assert("payload"@.len() == 7);
}

/// The fields of a record, index by index, are those of its members.
pub proof fn law_record_fields(record: Seq<u8>, i: int)
    ensures
        envelope_fields(record) is Some <==> json::object_members(record) is Some,
        envelope_fields(record) matches Some(fields) ==> fields.len() == json::object_members(
            record,
        )->Some_0.len() && (0 <= i < fields.len() ==> fields[i] == envelope_field(
            record,
            json::object_members(record)->Some_0[i],
        )),
{
}

/// A field stands for what it holds: its kind, its text, and the kind and the place of its payload.
pub proof fn law_fields_stand_for_what_they_hold(field: EnvelopeField, kind: PayloadKind)
    ensures
        kind is Absent <==> kind@ is Absent,
        kind is Invalid <==> kind@ is Invalid,
        kind matches PayloadKind::Text { text } ==> kind@ == (PayloadKindView::Text {
            text: text@,
        }),
        field matches EnvelopeField::Timestamp { is_text } ==> field@ == (FieldView::Timestamp {
            is_text,
        }),
        field matches EnvelopeField::Kind { text: Some(text) } ==> field@ == (FieldView::Kind {
            text: Some(text@),
        }),
        field matches EnvelopeField::Kind { text: None } ==> field@ == (FieldView::Kind {
            text: None,
        }),
        field matches EnvelopeField::Payload { object: Some(object), start, end } ==> field@ == (
        FieldView::Payload { object: Some(object@), start: start as int, end: end as int }),
        field matches EnvelopeField::Payload { object: None, start, end } ==> field@ == (
        FieldView::Payload { object: None, start: start as int, end: end as int }),
        field is Other <==> field@ is Other,
{
}

} // verus!
