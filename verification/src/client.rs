//! The client: what it does with what comes from the server.

use vstd::prelude::*;
use vstd::utf8::{
    char_u32_cast, decode_utf8, decode_utf8_encode_utf8, encode_scalar, encode_utf8,
    encode_utf8_decode_utf8, encode_utf8_valid_utf8, has_width_1_encoding, last_continuation_byte,
    leading_byte_width_1, leading_byte_width_2, leading_byte_width_3, leading_byte_width_4,
    second_last_continuation_byte, third_last_continuation_byte, valid_utf8,
};
use crate::text::decode;

verus! {

/// What ends a line from the server.
pub const LINE_END: u8 = 0xa;

/// What comes to a client that streams from the server.
#[derive(Debug)]
pub enum Incoming {
    /// Bytes were read, up to the end of a line; none when the server has closed.
    Read(Vec<u8>),
    /// The connection ended in the middle.
    Ended,
    /// Reading failed.
    Failed,
    /// The stream is told to stop.
    Stopped,
}

/// What a client that streams does next.
#[derive(Debug)]
pub enum StreamStep {
    /// Hand the text on.
    Forward(String),
    /// The bytes are no text: give up.
    Garbled,
    /// Shut the connection down, and end.
    Shutdown,
    /// End.
    End,
}

/// Whether a step is what a client that streams does with what comes.
pub open spec fn streams(incoming: Incoming, step: StreamStep) -> bool {
    match incoming {
        Incoming::Read(bytes) => {
            if bytes@.len() == 0 {
                step is Shutdown
            } else if valid_utf8(bytes@) {
                step matches StreamStep::Forward(text) && text@ == decode_utf8(bytes@)
            } else {
                step is Garbled
            }
        },
        Incoming::Ended | Incoming::Failed => step is End,
        Incoming::Stopped => step is Shutdown,
    }
}

/// What a client that streams does with what comes.
pub fn stream_step(incoming: Incoming) -> (step: StreamStep)
    ensures
        streams(incoming, step),
{
    match incoming {
        Incoming::Read(bytes) => {
            if bytes.len() == 0 {
                return StreamStep::Shutdown;
            }
            match decode(bytes) {
                Some(text) => StreamStep::Forward(text),
                None => StreamStep::Garbled,
            }
        },
        Incoming::Ended | Incoming::Failed => StreamStep::End,
        Incoming::Stopped => StreamStep::Shutdown,
    }
}

/// What comes to a client that prints what the server sends.
#[derive(Debug)]
pub enum Message {
    /// A text came.
    Text(String),
    /// No more texts come.
    Closed,
    /// Some texts were lost, since they were taken too slowly.
    Lagged,
    /// The text was printed, or could not be.
    Printed(bool),
    /// The client is told to stop.
    Interrupted,
}

/// What a client that prints does next.
#[derive(Debug)]
pub enum PrintStep {
    /// Print the text.
    Print(String),
    /// Wait for what comes next.
    Wait,
    /// Shut the stream down, and end.
    Shutdown,
    /// End.
    End,
}

/// Whether a step is what a client that prints does with what comes.
pub open spec fn prints(message: Message, step: PrintStep) -> bool {
    match message {
        Message::Text(text) => step == PrintStep::Print(text),
        Message::Printed(true) | Message::Lagged => step is Wait,
        Message::Printed(false) => step is End,
        Message::Closed | Message::Interrupted => step is Shutdown,
    }
}

/// What a client that prints does with what comes.
pub fn print_step(message: Message) -> (step: PrintStep)
    ensures
        prints(message, step),
{
    match message {
        Message::Text(text) => PrintStep::Print(text),
        Message::Printed(true) | Message::Lagged => PrintStep::Wait,
        Message::Printed(false) => PrintStep::End,
        Message::Closed | Message::Interrupted => PrintStep::Shutdown,
    }
}

/// What the server writes as one line the client reads as one: the bytes of a text without a
/// line end in it, with a line end behind it, hold the byte that ends a line at their end and
/// nowhere else, and are read as that text again.
pub proof fn lemma_line_is_read_whole(text: Seq<char>)
    requires
        !text.contains('\n'),
    ensures
        ({
            let bytes = encode_utf8(text.push('\n'));
            &&& bytes.len() > 0
            &&& bytes.last() == LINE_END
            &&& forall|i: int| 0 <= i < bytes.len() - 1 ==> #[trigger] bytes[i] != LINE_END
            &&& valid_utf8(bytes)
            &&& decode_utf8(bytes) == text.push('\n')
        }),
{
    let whole = text.push('\n');
    lemma_last_is_encoded_last(text, '\n');
    lemma_no_line_end_inside(text);
    let end = encode_scalar('\n' as u32);
    assert(10u32 & 0x7f == 10u32) by (bit_vector);
    assert(end =~= seq![LINE_END]);
    encode_utf8_valid_utf8(whole);
    encode_utf8_decode_utf8(whole);
}

/// What a client hands on has the very bytes that it read, and it gives up only on bytes that no
/// text has. It shuts down when it reads nothing or is told to stop, and just ends where the
/// connection ended or reading failed.
pub proof fn lemma_bytes_are_handed_on(incoming: Incoming, step: StreamStep, any: Seq<char>)
    requires
        streams(incoming, step),
    ensures
        step matches StreamStep::Forward(text) ==> {
            &&& incoming matches Incoming::Read(bytes)
            &&& bytes@.len() > 0
            &&& encode_utf8(text@) == bytes@
        },
        step is Garbled ==> {
            &&& incoming matches Incoming::Read(bytes)
            &&& bytes@ != encode_utf8(any)
        },
        step is Shutdown <==> incoming is Stopped || (incoming is Read
            && incoming->Read_0@.len() == 0),
        step is End <==> incoming is Ended || incoming is Failed,
{
    encode_utf8_valid_utf8(any);
    if let Incoming::Read(bytes) = incoming {
        if valid_utf8(bytes@) {
            decode_utf8_encode_utf8(bytes@);
        }
    }
}

/// What a text is sent as arrives as that text: a client that reads the bytes of a line hands on
/// the text and the line end, and one that prints prints what it is handed.
pub proof fn lemma_lines_are_printed(
    text: Seq<char>,
    incoming: Incoming,
    step: StreamStep,
    printing: PrintStep,
)
    requires
        incoming matches Incoming::Read(bytes) && bytes@ == encode_utf8(text.push('\n')),
        !text.contains('\n'),
        streams(incoming, step),
        step matches StreamStep::Forward(handed) ==> prints(Message::Text(handed), printing),
    ensures
        step is Forward,
        step->Forward_0@ == text + seq!['\n'],
        printing is Print,
        printing->Print_0@ == text + seq!['\n'],
{
    lemma_line_is_read_whole(text);
    assert(text.push('\n') =~= text + seq!['\n']);
}

/// A client prints each text that comes, as it came, and nothing else. It goes on after a text
/// that was printed and after texts that were lost, ends where it could not print, and shuts the
/// stream down when no more comes or it is told to stop.
pub proof fn lemma_texts_are_printed(message: Message, step: PrintStep)
    requires
        prints(message, step),
    ensures
        message is Text <==> step is Print,
        message is Text ==> step->Print_0 == message->Text_0,
        step is Wait <==> message is Lagged || message == Message::Printed(true),
        step is End <==> message == Message::Printed(false),
        step is Shutdown <==> message is Closed || message is Interrupted,
{
}

/// The bytes of the last character of a text are the last bytes of the text.
proof fn lemma_last_is_encoded_last(text: Seq<char>, last: char)
    ensures
        encode_utf8(text.push(last)) == encode_utf8(text) + encode_scalar(last as u32),
    decreases text.len(),
{
    let whole = text.push(last);
    if text.len() == 0 {
        assert(whole.drop_first() =~= Seq::empty());
        assert(encode_utf8(whole.drop_first()) =~= Seq::empty());
        assert(encode_utf8(whole) =~= encode_utf8(text) + encode_scalar(last as u32));
    } else {
        assert(whole.drop_first() =~= text.drop_first().push(last));
        assert(whole[0] == text[0]);
        lemma_last_is_encoded_last(text.drop_first(), last);
        assert(encode_utf8(whole) =~= encode_utf8(text) + encode_scalar(last as u32));
    }
}

/// The bytes of a text without a line end in it hold no byte that ends a line.
proof fn lemma_no_line_end_inside(text: Seq<char>)
    requires
        !text.contains('\n'),
    ensures
        forall|i: int|
            0 <= i < encode_utf8(text).len() ==> #[trigger] encode_utf8(text)[i] != LINE_END,
    decreases text.len(),
{
    if text.len() > 0 {
        let rest = text.drop_first();
        assert(!rest.contains('\n')) by {
            assert(forall|i: int| 0 <= i < rest.len() ==> rest[i] == text[i + 1]);
        }
        lemma_no_line_end_inside(rest);
        let c = text[0];
        let first = encode_scalar(c as u32);
        assert(c as u32 != 10) by {
            char_u32_cast(c, c as u32);
            char_u32_cast('\n', 10);
        }
        lemma_line_end_is_one_byte(c as u32);
        assert forall|i: int| 0 <= i < encode_utf8(text).len() implies #[trigger] encode_utf8(
            text,
        )[i] != LINE_END by {
            if i >= first.len() {
                assert(encode_utf8(text)[i] == encode_utf8(rest)[i - first.len()]);
            } else {
                assert(encode_utf8(text)[i] == first[i]);
            }
        }
    }
}

/// Of all characters only the line end has the byte that ends a line in its encoding.
proof fn lemma_line_end_is_one_byte(scalar: u32)
    requires
        scalar != 10,
    ensures
        forall|i: int|
            0 <= i < encode_scalar(scalar).len() ==> #[trigger] encode_scalar(scalar)[i]
                != LINE_END,
{
    if has_width_1_encoding(scalar) {
        assert(leading_byte_width_1(scalar) != 10) by (bit_vector)
            requires
                scalar != 10,
                has_width_1_encoding(scalar),
        ;
    }
    assert(leading_byte_width_2(scalar) != 10) by (bit_vector);
    assert(leading_byte_width_3(scalar) != 10) by (bit_vector);
    assert(leading_byte_width_4(scalar) != 10) by (bit_vector);
    assert(last_continuation_byte(scalar) != 10) by (bit_vector);
    assert(second_last_continuation_byte(scalar) != 10) by (bit_vector);
    assert(third_last_continuation_byte(scalar) != 10) by (bit_vector);
}

} // verus!
