//! The text that is sent to clients, in the event stream format.
//!
//! A stream is a sequence of blocks, each ended by a blank line. A block of `event:` and `data:`
//! lines is one event; a block that is a line starting with a colon is a comment, which clients
//! skip.

use vstd::prelude::*;

verus! {

/// The block that carries one event.
pub open spec fn event_text(event: Seq<char>, payload: Seq<char>) -> Seq<char> {
    "event: "@ + event + "\ndata: "@ + payload + "\n\n"@
}

/// The block that keeps a connection alive: an empty comment.
pub open spec fn heartbeat_text() -> Seq<char> {
    ":\n\n"@
}

/// Whether the text is a single line: it has no line feed and no carriage return.
pub open spec fn is_one_line(text: Seq<char>) -> bool {
    forall|i: int| 0 <= i < text.len() ==> text[i] != '\n' && text[i] != '\r'
}

/// Whether the text is one block: its lines end with line feeds alone, it ends with a blank line,
/// and has no other blank line.
pub open spec fn is_one_block(text: Seq<char>) -> bool {
    &&& forall|i: int| 0 <= i < text.len() ==> text[i] != '\r'
    &&& text.len() >= 2
    &&& text[text.len() - 2] == '\n'
    &&& text[text.len() - 1] == '\n'
    &&& forall|i: int, j: int|
        0 <= i < text.len() && j == i + 1 && j < text.len() && #[trigger] text[i] == '\n'
            && #[trigger] text[j] == '\n' ==> j == text.len() - 1
}

/// The block that carries one event.
pub fn format_event(event: &str, payload: &str) -> (text: String)
    ensures
        text@ == event_text(event@, payload@),
{
    let mut text: String = String::new();
    text.append("event: ");
    text.append(event);
    text.append("\ndata: ");
    text.append(payload);
    text.append("\n\n");
    assert(text@ =~= event_text(event@, payload@));
    text
}

/// The block that keeps a connection alive.
pub fn format_heartbeat() -> (text: String)
    ensures
        text@ == heartbeat_text(),
{
    let mut text: String = String::new();
    text.append(":\n\n");
    assert(text@ =~= heartbeat_text());
    text
}

/// An event whose name and data are single lines is sent as exactly one block.
pub proof fn lemma_event_is_one_block(event: Seq<char>, payload: Seq<char>)
    requires
        is_one_line(event),
        is_one_line(payload),
    ensures
        is_one_block(event_text(event, payload)),
{
    reveal_strlit("event: ");
    reveal_strlit("\ndata: ");
    reveal_strlit("\n\n");
    let text = event_text(event, payload);
    let name_end = 7 + event.len() as int;
    let data_start = name_end + 7;
    let end = data_start + payload.len();
    assert(text.len() == end + 2);
    assert forall|i: int| 0 <= i < text.len() implies #[trigger] text[i] != '\r' && (text[i] == '\n'
        ==> i == name_end || i == end || i == end + 1) by {
        if i < 7 {
            assert(text[i] == "event: "@[i]);
        } else if i < name_end {
            assert(text[i] == event[i - 7]);
        } else if i < data_start {
            assert(text[i] == "\ndata: "@[i - name_end]);
        } else if i < end {
            assert(text[i] == payload[i - data_start]);
        } else {
            assert(text[i] == "\n\n"@[i - end]);
        }
    }
    assert(text[end] == "\n\n"@[0]);
    assert(text[end + 1] == "\n\n"@[1]);
}

/// Two blocks of events whose names have no line feed are equal only if the events are: the text
/// determines the name and the data that went into it.
pub proof fn lemma_event_is_recoverable(
    event1: Seq<char>,
    payload1: Seq<char>,
    event2: Seq<char>,
    payload2: Seq<char>,
)
    requires
        !event1.contains('\n'),
        !event2.contains('\n'),
        event_text(event1, payload1) == event_text(event2, payload2),
    ensures
        event1 == event2,
        payload1 == payload2,
{
    reveal_strlit("event: ");
    reveal_strlit("\ndata: ");
    reveal_strlit("\n\n");
    let text1 = event_text(event1, payload1);
    let text2 = event_text(event2, payload2);
    let end1 = 7 + event1.len() as int;
    let end2 = 7 + event2.len() as int;
    assert(text1[end1] == "\ndata: "@[0]);
    assert(text2[end2] == "\ndata: "@[0]);
    if end1 < end2 {
        assert(text2[end1] == event2[end1 - 7]);
    } else if end2 < end1 {
        assert(text1[end2] == event1[end2 - 7]);
    }
    assert forall|i: int| 0 <= i < event1.len() implies event1[i] == event2[i] by {
        assert(text1[i + 7] == event1[i]);
        assert(text2[i + 7] == event2[i]);
    }
    assert(event1 =~= event2);
    assert(text1.len() == end1 + 7 + payload1.len() + 2);
    assert(text2.len() == end2 + 7 + payload2.len() + 2);
    assert forall|i: int| 0 <= i < payload1.len() implies payload1[i] == payload2[i] by {
        assert(text1[i + end1 + 7] == payload1[i]);
        assert(text2[i + end1 + 7] == payload2[i]);
    }
    assert(payload1 =~= payload2);
}

/// The first line of the text, without the line feed that ends it.
pub open spec fn first_line(text: Seq<char>) -> Seq<char>
    decreases text.len(),
{
    if text.len() == 0 || text[0] == '\n' {
        Seq::empty()
    } else {
        seq![text[0]] + first_line(text.skip(1))
    }
}

/// The second line of the text.
pub open spec fn second_line(text: Seq<char>) -> Seq<char> {
    first_line(text.skip(first_line(text).len() as int + 1))
}

/// The name of the event that a block carries: what follows `event: ` on its first line.
pub open spec fn event_name(text: Seq<char>) -> Seq<char> {
    first_line(text).skip("event: "@.len() as int)
}

/// The data of the event that a block carries: what follows `data: ` on its second line.
pub open spec fn event_data(text: Seq<char>) -> Seq<char> {
    second_line(text).skip("data: "@.len() as int)
}

proof fn lemma_first_line(line: Seq<char>, rest: Seq<char>)
    requires
        !line.contains('\n'),
        rest.len() > 0,
        rest[0] == '\n',
    ensures
        first_line(line + rest) == line,
    decreases line.len(),
{
    if line.len() > 0 {
        let shorter = line.skip(1);
        assert(line.contains(line[0]));
        assert forall|i: int| 0 <= i < shorter.len() implies shorter[i] != '\n' by {
            assert(line.contains(line[i + 1]));
        }
        lemma_first_line(shorter, rest);
        assert((line + rest).skip(1) =~= shorter + rest);
        assert(seq![line[0]] + shorter =~= line);
    }
}

/// An event whose name and data have no line feed is read back from its block: the first line is
/// `event: ` and the name, the second is `data: ` and the data. The block has exactly three line
/// feeds: one after each of these lines, and one for the blank line.
pub proof fn lemma_event_is_read_back(event: Seq<char>, payload: Seq<char>)
    requires
        !event.contains('\n'),
        !payload.contains('\n'),
    ensures
        first_line(event_text(event, payload)) == "event: "@ + event,
        second_line(event_text(event, payload)) == "data: "@ + payload,
        event_name(event_text(event, payload)) == event,
        event_data(event_text(event, payload)) == payload,
        forall|i: int|
            0 <= i < event_text(event, payload).len() ==> (#[trigger] event_text(event, payload)[i]
                == '\n' <==> i == 7 + event.len() || i == 14 + event.len() + payload.len() || i == 15
                + event.len() + payload.len()),
{
    reveal_strlit("event: ");
    reveal_strlit("data: ");
    reveal_strlit("\ndata: ");
    reveal_strlit("\n");
    reveal_strlit("\n\n");
    let text = event_text(event, payload);
    let name_line = "event: "@ + event;
    let data_line = "data: "@ + payload;
    assert("\ndata: "@ =~= "\n"@ + "data: "@);
    assert forall|i: int| 0 <= i < name_line.len() implies name_line[i] != '\n' by {
        if i >= 7 {
            assert(event.contains(event[i - 7]));
        }
    }
    assert forall|i: int| 0 <= i < data_line.len() implies data_line[i] != '\n' by {
        if i >= 6 {
            assert(payload.contains(payload[i - 6]));
        }
    }
    let rest = "\ndata: "@ + payload + "\n\n"@;
    assert(text =~= name_line + rest);
    lemma_first_line(name_line, rest);
    assert(text.skip(name_line.len() as int + 1) =~= data_line + "\n\n"@);
    lemma_first_line(data_line, "\n\n"@);
    assert(name_line.skip(7) =~= event);
    assert(data_line.skip(6) =~= payload);
    assert(text =~= name_line + "\n"@ + data_line + "\n\n"@);
    assert forall|i: int| 0 <= i < text.len() implies (#[trigger] text[i] == '\n' <==> i == 7
        + event.len() || i == 14 + event.len() + payload.len() || i == 15 + event.len()
        + payload.len()) by {
        if i < name_line.len() {
            assert(text[i] == name_line[i]);
        } else if name_line.len() < i <= name_line.len() + data_line.len() {
            assert(text[i] == data_line[i - name_line.len() - 1]);
        }
    }
}

/// A pushed message is read back. Its serialized form has no line feed and is parsed as the message;
/// then parsing the data of the block that was sent gives the message, under the name of its event.
pub proof fn lemma_message_is_read_back<M, J>(
    event: Seq<char>,
    payload: Seq<char>,
    message: M,
    parse: J,
    data: &str,
    read: Option<M>,
) where J: FnOnce(&str) -> Option<M>
    requires
        !event.contains('\n'),
        !payload.contains('\n'),
        forall|text: &str, parsed: Option<M>|
            text@ == payload && #[trigger] call_ensures(parse, (text,), parsed) ==> parsed == Some(
                message,
            ),
        data@ == event_data(event_text(event, payload)),
        call_ensures(parse, (data,), read),
    ensures
        event_name(event_text(event, payload)) == event,
        read == Some(message),
{
    lemma_event_is_read_back(event, payload);
}

/// A heartbeat is one block, and clients skip it: it starts with a colon.
pub proof fn lemma_heartbeat_is_a_comment()
    ensures
        is_one_block(heartbeat_text()),
        heartbeat_text()[0] == ':',
{
    reveal_strlit(":\n\n");
}

/// The text of an event holds its name and its data whole and unchanged, whatever is in them: the
/// name between `event: ` and the line feed before `data: `, the data between that and the two line
/// feeds at the end.
pub proof fn lemma_event_holds_name_and_data(event: &str, payload: &str, text: String)
    requires
        call_ensures(format_event, (event, payload), text),
    ensures
        text@.len() == event@.len() + payload@.len() + 16,
        text@.take(7) == seq!['e', 'v', 'e', 'n', 't', ':', ' '],
        text@.skip(7).take(event@.len() as int) == event@,
        text@.skip(event@.len() + 7int).take(7) == seq!['\n', 'd', 'a', 't', 'a', ':', ' '],
        text@.skip(event@.len() + 14int).take(payload@.len() as int) == payload@,
        text@.skip(event@.len() + payload@.len() + 14int) == seq!['\n', '\n'],
{
    reveal_strlit("event: ");
    reveal_strlit("\ndata: ");
    reveal_strlit("\n\n");
    assert(text@.skip(7).take(event@.len() as int) =~= event@);
    assert(text@.skip(event@.len() + 14int).take(payload@.len() as int) =~= payload@);
}

/// The heartbeat is a colon and a blank line.
pub proof fn lemma_heartbeat_is_a_colon_and_a_blank_line(text: String)
    requires
        call_ensures(format_heartbeat, (), text),
    ensures
        text@ == seq![':', '\n', '\n'],
{
    reveal_strlit(":\n\n");
    assert(text@ =~= seq![':', '\n', '\n']);
}

} // verus!
