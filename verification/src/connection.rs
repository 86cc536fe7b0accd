//! One connection to the server: what a request leads to, and what the connection does next.

use tokio::sync::broadcast;
use vstd::prelude::*;
use vstd::utf8::{decode_utf8, valid_utf8};
use crate::channel::tap;
use crate::document::{carries, comes_back, json_parse, json_text};
use crate::joint::{Expressed, Joint};
use crate::json::Json;
use crate::request::{
    encoded, lemma_arguments_arrive, lemma_command_words, lemma_plain_arguments_arrive, requested,
    stripped, Demand, Fault, Refusal, Request, SEPARATOR,
};
use crate::storage::{Contents, Notice, Storage};
use crate::text::{is_white, joined, lemma_split_undoes_join, pieces, trimmed, trimmed_end};
use crate::tree::Tree;

verus! {

/// What the server reads from a client that connected.
#[derive(Debug)]
pub enum Received {
    /// The first bytes that came.
    Bytes(Vec<u8>),
    /// The client closed the connection before it sent anything.
    Nothing,
    /// Reading failed.
    Failed,
}

impl Received {
    /// The bytes that came; none where there was nothing to read.
    pub open spec fn bytes(self) -> Seq<u8> {
        match self {
            Received::Bytes(bytes) => bytes@,
            _ => Seq::empty(),
        }
    }
}

/// What a request leads to.
pub enum Response {
    /// A value was put under a key. The connection is shut down.
    Done(Notice),
    /// The text is written, and the connection is shut down, whether or not it went through.
    Reply(String),
    /// The line is written. If it went through, the key is listened to.
    Greet { key: String, line: String },
    /// The expression is listened to: its value is told first, and again after each value that
    /// one of the receivers gives.
    Follow {
        joint: Joint,
        left: broadcast::Receiver<Json>,
        right: broadcast::Receiver<Json>,
    },
    /// The connection is dropped, with no answer.
    Refuse(Refusal),
}

/// The line that a listener is told a value in.
pub open spec fn line(value: Tree) -> Seq<char> {
    json_text(value).push('\n')
}

/// Whether a response, and the contents of the store with it, are what a request leads to.
pub open spec fn answers(
    before: Contents,
    demand: Demand,
    response: Response,
    after: Contents,
) -> bool {
    match demand {
        Demand::Put { key, value } => {
            &&& response matches Response::Done(notice)
            &&& before.reported(key, value, notice)
            &&& after == before.inserted(key, value, notice)
        },
        Demand::Get { key } => {
            &&& response matches Response::Reply(text)
            &&& text@ == json_text(before.read(key))
            &&& carries(text@, before.read(key))
            &&& after == before
        },
        Demand::Listen { key } => {
            &&& response matches Response::Greet { key: asked, line: greeting }
            &&& asked@ == key
            &&& greeting@ == line(before.read(key))
            &&& carries(greeting@, before.read(key))
            &&& after == before
        },
        Demand::Join { left, operation, right } => {
            &&& response matches Response::Follow { joint, left: first, right: second }
            &&& joint@ == (Expressed {
                operation,
                left: before.read(left),
                right: before.read(right),
            })
            &&& after == before.listened(left, tap(first).channel).listened(
                right,
                tap(second).channel,
            )
            &&& tap(first) == after.listeners[left].end()
            &&& tap(second) == after.listeners[right].end()
        },
    }
}

/// Whether a response, and the contents of the store with it, are what bytes from a client lead
/// to. Where they ask nothing that there is, that is a refusal and no change.
pub open spec fn responds(
    before: Contents,
    bytes: Seq<u8>,
    response: Response,
    after: Contents,
) -> bool {
    match requested(bytes) {
        Ok(demand) => answers(before, demand, response, after),
        Err(fault) => {
            &&& response matches Response::Refuse(refusal) && refusal@ == fault
            &&& after == before
        },
    }
}

impl Json {
    /// The line that a listener is told the value in.
    pub fn to_line(&self) -> (text: String)
        ensures
            text@ == line(self@),
            !json_text(self@).contains('\n'),
            carries(text@, self@),
    {
        proof {
            reveal_strlit("\n");
        }
        let mut text = self.to_text();
        text.append("\n");
        assert(text@ =~= line(self@));
        text
    }
}

/// Does what a request asks.
pub fn answer(storage: &mut Storage, request: Request) -> (response: Response)
    requires
        old(storage).wf(),
    ensures
        final(storage).wf(),
        answers(old(storage)@, request@, response, final(storage)@),
{
    match request {
        Request::Put { key, value } => Response::Done(storage.insert(key, value)),
        Request::Get { key } => Response::Reply(storage.get(key.as_str()).to_text()),
        Request::Listen { key } => {
            let line = storage.get(key.as_str()).to_line();
            Response::Greet { key, line }
        },
        Request::Join { left, operation, right } => {
            let first = storage.get(left.as_str()).clone();
            let second = storage.get(right.as_str()).clone();
            let joint = Joint::new(operation, first, second);
            let left = storage.listen(left);
            let right = storage.listen(right);
            Response::Follow { joint, left, right }
        },
    }
}

/// Does what a client asks. Where it asks nothing that there is, the connection is dropped and
/// the store stays as it is.
pub fn receive(storage: &mut Storage, received: Received) -> (response: Response)
    requires
        old(storage).wf(),
    ensures
        final(storage).wf(),
        responds(old(storage)@, received.bytes(), response, final(storage)@),
{
    let bytes = match received {
        Received::Bytes(bytes) => bytes,
        Received::Nothing | Received::Failed => Vec::new(),
    };
    match Request::from_bytes(bytes) {
        Ok(request) => answer(storage, request),
        Err(refusal) => Response::Refuse(refusal),
    }
}

/// Whether a receiver, and the contents of the store with it, are what comes after the first line
/// to a listener of a key.
pub open spec fn follows_greeting(
    before: Contents,
    key: Seq<char>,
    written: bool,
    receiver: Option<broadcast::Receiver<Json>>,
    after: Contents,
) -> bool {
    &&& receiver is Some <==> written
    &&& receiver is None ==> after == before
    &&& receiver matches Some(feed) ==> {
        &&& after == before.listened(key, tap(feed).channel)
        &&& tap(feed) == after.listeners[key].end()
    }
}

/// Goes on after the first line to a listener: if it went through, the key is listened to; if
/// not, the connection is dropped and the store stays as it is.
pub fn greeted(storage: &mut Storage, key: String, written: bool) -> (receiver: Option<
    broadcast::Receiver<Json>,
>)
    requires
        old(storage).wf(),
    ensures
        final(storage).wf(),
        follows_greeting(old(storage)@, key@, written, receiver, final(storage)@),
{
    if written {
        Some(storage.listen(key))
    } else {
        None
    }
}

/// What happens to a connection whose request was taken.
#[derive(Debug)]
pub enum Event {
    /// What was asked is done, and there is nothing to write.
    Finished,
    /// The reply went through, or did not.
    Replied(bool),
    /// A value came from the store.
    Heard(Json),
    /// No more values come from the store.
    Lost,
    /// What was to be written went through, or did not.
    Wrote(bool),
    /// The client closed the connection.
    PeerClosed,
    /// The client sent something, or reading from it failed in some other way.
    PeerSpoke,
    /// The server is told to stop.
    Interrupted,
}

/// What a connection does next.
#[derive(Debug)]
pub enum Step {
    /// Write the line.
    Write(String),
    /// Wait for what happens next.
    Wait,
    /// Drop the connection.
    Abandon,
    /// Shut the connection down.
    Shutdown,
}

/// Whether a step is what a connection does when something happens.
pub open spec fn proceeds(event: Event, step: Step) -> bool {
    match event {
        Event::Heard(value) => {
            &&& step matches Step::Write(text)
            &&& text@ == line(value@)
            &&& carries(text@, value@)
        },
        Event::Wrote(true) | Event::PeerSpoke => step is Wait,
        Event::Wrote(false) | Event::Lost | Event::PeerClosed => step is Abandon,
        Event::Finished | Event::Replied(_) | Event::Interrupted => step is Shutdown,
    }
}

/// What a connection does when something happens. After a reply it is shut down, whether or not
/// the reply went through; one that listens goes on until there is nobody left to tell or to
/// hear from.
pub fn next_step(event: Event) -> (step: Step)
    ensures
        proceeds(event, step),
{
    match event {
        Event::Heard(value) => Step::Write(value.to_line()),
        Event::Wrote(true) | Event::PeerSpoke => Step::Wait,
        Event::Wrote(false) | Event::Lost | Event::PeerClosed => Step::Abandon,
        Event::Finished | Event::Replied(_) | Event::Interrupted => Step::Shutdown,
    }
}

/// Of a client that sends nothing, or only white space, the server takes an empty command,
/// which there is not.
pub proof fn lemma_silence_is_refused(bytes: Seq<u8>)
    requires
        valid_utf8(bytes),
        trimmed(decode_utf8(bytes)).len() == 0,
    ensures
        requested(bytes) == Err::<Demand, Fault>(Fault::UnknownCommand(Seq::empty())),
{
    reveal_strlit("set");
    reveal_strlit("get");
    reveal_strlit("listen");
    let text = trimmed(decode_utf8(bytes));
    assert(text =~= Seq::empty());
    let args = pieces(text, SEPARATOR);
    assert(args[0].len() == 0);
    assert("set"@.len() == 3 && "get"@.len() == 3 && "listen"@.len() == 6);
}

/// What a client sets under a key is what a client gets that asks for the key next: the compact
/// text of the value, which is parsed as the value again. White space behind the text that was
/// set does not count.
pub proof fn lemma_get_answers_what_was_set(
    before: Contents,
    key: Seq<char>,
    text: Seq<char>,
    value: Tree,
    done: Response,
    between: Contents,
    reply: Response,
    after: Contents,
)
    requires
        json_parse(trimmed_end(text)) == Some(value),
        !key.contains(SEPARATOR),
        !text.contains(SEPARATOR),
        key.len() > 0 ==> !is_white(key.last()),
        requested(encoded(seq!["set"@, key, text])) matches Ok(demand) ==> answers(
            before,
            demand,
            done,
            between,
        ),
        requested(encoded(seq!["get"@, key])) matches Ok(demand) ==> answers(
            between,
            demand,
            reply,
            after,
        ),
    ensures
        requested(encoded(seq!["set"@, key, text])) is Ok,
        requested(encoded(seq!["get"@, key])) is Ok,
        done is Done,
        reply matches Response::Reply(answer) && answer@ == json_text(value) && carries(
            answer@,
            value,
        ),
        after == between,
{
    lemma_command_words();
    let put = seq!["set"@, key, text];
    let get = seq!["get"@, key];
    lemma_arguments_arrive(put);
    lemma_plain_arguments_arrive(get);
    assert(stripped(put) =~= seq!["set"@, key, trimmed_end(text)]);
}

/// What is written to a listener who is told some texts, one after the other.
pub open spec fn lines(told: Seq<Seq<char>>) -> Seq<char>
    decreases told.len(),
{
    if told.len() == 0 {
        Seq::empty()
    } else {
        lines(told.drop_last()) + told.last().push('\n')
    }
}

/// A listener can tell apart what it is told: texts without a line end in them are the pieces
/// between the line ends of what is written.
pub proof fn lemma_lines_told_apart(told: Seq<Seq<char>>)
    requires
        forall|i: int| 0 <= i < told.len() ==> !(#[trigger] told[i]).contains('\n'),
    ensures
        pieces(lines(told), '\n') == told.push(Seq::empty()),
{
    let parts = told.push(Seq::empty());
    lemma_lines_are_joined(told);
    assert forall|i: int| 0 <= i < parts.len() implies !(#[trigger] parts[i]).contains('\n') by {
        if i < told.len() {
            assert(parts[i] == told[i]);
        }
    }
    lemma_split_undoes_join(parts, '\n');
}

/// Lines are texts with line ends between them, and nothing behind the last line end.
proof fn lemma_lines_are_joined(told: Seq<Seq<char>>)
    ensures
        lines(told) == joined(told.push(Seq::empty()), seq!['\n']),
    decreases told.len(),
{
    let parts = told.push(Seq::empty());
    assert(parts.drop_last() =~= told);
    if told.len() > 0 {
        let before = told.drop_last();
        lemma_lines_are_joined(before);
        assert(before.push(Seq::empty()).drop_last() =~= before);
        assert(lines(told) =~= joined(told, seq!['\n']) + seq!['\n'] + Seq::<char>::empty());
    }
}

/// What the server reads is what came; of a client that sent nothing, or of which reading failed,
/// that is nothing.
pub proof fn lemma_bytes_are_those_that_came(bytes: Vec<u8>)
    ensures
        Received::Bytes(bytes).bytes() == bytes@,
        Received::Nothing.bytes() == Seq::<u8>::empty(),
        Received::Failed.bytes() == Seq::<u8>::empty(),
{
}

/// What a connection writes is what it heard: each value is written, as its text and a line end,
/// and nothing else is. It is shut down after a reply and when the server stops, dropped when it
/// cannot write, hear or be heard any more, and goes on otherwise.
pub proof fn lemma_values_are_written(event: Event, step: Step)
    requires
        proceeds(event, step),
    ensures
        event is Heard <==> step is Write,
        event matches Event::Heard(value) ==> {
            &&& step->Write_0@ == json_text(value@) + seq!['\n']
            &&& comes_back(value@, 127) ==> json_parse(step->Write_0@) == Some(value@)
        },
        step is Wait <==> event is PeerSpoke || event == Event::Wrote(true),
        step is Abandon <==> event is Lost || event is PeerClosed || event == Event::Wrote(false),
        step is Shutdown <==> event is Finished || event is Replied || event is Interrupted,
{
    if let Event::Heard(value) = event {
        assert(json_text(value@) + seq!['\n'] =~= json_text(value@).push('\n'));
    }
}

/// A listener whose first line went through hears of its key from then on, and of nothing that
/// came before; one whose line did not go through leaves nothing behind. No value changes, and
/// no channel that was there.
pub proof fn lemma_listening_begins_after_greeting(
    before: Contents,
    key: Seq<char>,
    written: bool,
    receiver: Option<broadcast::Receiver<Json>>,
    after: Contents,
    other: Seq<char>,
)
    requires
        follows_greeting(before, key, written, receiver, after),
    ensures
        receiver is Some <==> written,
        !written ==> after == before,
        receiver matches Some(feed) ==> {
            &&& after.listeners.contains_key(key)
            &&& tap(feed).channel == after.listeners[key].id
            &&& tap(feed).hears(after.listeners[key]) == Seq::<Tree>::empty()
        },
        after.data == before.data,
        before.listeners.contains_key(other) ==> after.listeners.contains_key(other)
            && after.listeners[other] == before.listeners[other],
        other != key ==> after.listeners.contains_key(other) == before.listeners.contains_key(
            other,
        ),
{
    if let Some(feed) = receiver {
        assert(tap(feed).hears(after.listeners[key]) =~= Seq::<Tree>::empty());
    }
}

} // verus!
