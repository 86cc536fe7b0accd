//! Requests: how a client writes one down, and what the server takes it for.

use vstd::prelude::*;
use vstd::utf8::{
    decode_utf8, encode_utf8, encode_utf8_decode_utf8, encode_utf8_valid_utf8, valid_utf8,
};
use crate::document::{json_parse, json_refusal};
use crate::json::Json;
use crate::operation::{lemma_operators_by_name, Operation};
use crate::text::{
    decode, is_white, join, joined, lemma_encoded_in_a_row, lemma_joined_in_parts,
    lemma_split_undoes_join, lemma_trimmed_end_of_both, lemma_trimmed_is_part,
    lemma_trimmed_start_of_both, lemma_trimmed_stays, lemma_white_space_around, pieces, split,
    texts, trim, trimmed, trimmed_end, trimmed_start,
};
use crate::tree::Tree;

verus! {

/// What stands between two arguments of a request.
pub const SEPARATOR: char = '\0';

/// The key that asks for an expression instead of a plain value.
pub const EXPRESSION_KEY: &'static str = "$";

/// How many bytes of a request the server reads at most; what goes beyond is not looked at.
pub const REQUEST_SIZE: usize = 1024;

/// What a client asks of the server.
#[derive(Debug)]
pub enum Request {
    /// Put a value under a key.
    Put { key: String, value: Json },
    /// Tell the value under a key.
    Get { key: String },
    /// Tell the value under a key, and each that comes there.
    Listen { key: String },
    /// Tell what an operator makes of the values under two keys, now and after each change.
    Join { left: String, operation: Operation, right: String },
}

/// Why the server does not take a request.
#[derive(Debug)]
pub enum Refusal {
    /// The bytes are no UTF-8.
    NotText,
    /// A command came with fewer arguments than it needs.
    TooFewArguments { command: String, needed: usize, received: usize },
    /// The value is no JSON, and why.
    BadValue { key: String, value: String, reason: String },
    /// There is no such operator.
    UnknownOperation(String),
    /// There is no such command.
    UnknownCommand(String),
}

/// What a request asks.
pub enum Demand {
    Put { key: Seq<char>, value: Tree },
    Get { key: Seq<char> },
    Listen { key: Seq<char> },
    Join { left: Seq<char>, operation: Operation, right: Seq<char> },
}

/// What is wrong with a request.
pub enum Fault {
    NotText,
    TooFewArguments { command: Seq<char>, needed: int, received: int },
    BadValue { key: Seq<char>, value: Seq<char>, reason: Seq<char> },
    UnknownOperation(Seq<char>),
    UnknownCommand(Seq<char>),
}

impl View for Request {
    type V = Demand;

    open spec fn view(&self) -> Demand {
        match self {
            Request::Put { key, value } => Demand::Put { key: key@, value: value@ },
            Request::Get { key } => Demand::Get { key: key@ },
            Request::Listen { key } => Demand::Listen { key: key@ },
            Request::Join { left, operation, right } => Demand::Join {
                left: left@,
                operation: *operation,
                right: right@,
            },
        }
    }
}

impl View for Refusal {
    type V = Fault;

    open spec fn view(&self) -> Fault {
        match self {
            Refusal::NotText => Fault::NotText,
            Refusal::TooFewArguments { command, needed, received } => Fault::TooFewArguments {
                command: command@,
                needed: *needed as int,
                received: *received as int,
            },
            Refusal::BadValue { key, value, reason } => Fault::BadValue {
                key: key@,
                value: value@,
                reason: reason@,
            },
            Refusal::UnknownOperation(operation) => Fault::UnknownOperation(operation@),
            Refusal::UnknownCommand(command) => Fault::UnknownCommand(command@),
        }
    }
}

/// The arguments that some bytes hold: the pieces between the separators of the text that they
/// are in UTF-8, without the white space at its ends.
pub open spec fn arguments(bytes: Seq<u8>) -> Option<Seq<Seq<char>>> {
    if valid_utf8(bytes) {
        Some(pieces(trimmed(decode_utf8(bytes)), SEPARATOR))
    } else {
        None
    }
}

/// The bytes that arguments are sent as.
pub open spec fn encoded(arguments: Seq<Seq<char>>) -> Seq<u8> {
    encode_utf8(joined(arguments, seq![SEPARATOR]))
}

/// The fault of a command that needs more arguments than it came with.
pub open spec fn too_few(args: Seq<Seq<char>>, needed: int) -> Fault {
    Fault::TooFewArguments { command: args[0], needed, received: args.len() - 1 }
}

/// What arguments ask. The first is the command; what comes after those that it needs is
/// passed over.
pub open spec fn demanded(args: Seq<Seq<char>>) -> Result<Demand, Fault> {
    if args[0] == "set"@ {
        if args.len() < 3 {
            Err(too_few(args, 2))
        } else {
            match json_parse(args[2]) {
                Some(value) => Ok(Demand::Put { key: args[1], value }),
                None => Err(
                    Fault::BadValue {
                        key: args[1],
                        value: args[2],
                        reason: json_refusal(args[2]),
                    },
                ),
            }
        }
    } else if args[0] == "get"@ {
        if args.len() < 2 {
            Err(too_few(args, 1))
        } else {
            Ok(Demand::Get { key: args[1] })
        }
    } else if args[0] == "listen"@ {
        if args.len() < 2 {
            Err(too_few(args, 1))
        } else if args[1] != EXPRESSION_KEY@ {
            Ok(Demand::Listen { key: args[1] })
        } else if args.len() < 5 {
            Err(too_few(args, 4))
        } else {
            match Operation::named(args[3]) {
                Some(operation) => Ok(
                    Demand::Join { left: args[2], operation, right: args[4] },
                ),
                None => Err(Fault::UnknownOperation(args[3])),
            }
        }
    } else {
        Err(Fault::UnknownCommand(args[0]))
    }
}

/// What some bytes ask.
pub open spec fn requested(bytes: Seq<u8>) -> Result<Demand, Fault> {
    match arguments(bytes) {
        Some(args) => demanded(args),
        None => Err(Fault::NotText),
    }
}

/// Whether a request or a refusal is what was asked or what was wrong.
pub open spec fn agrees(parsed: Result<Request, Refusal>, meant: Result<Demand, Fault>) -> bool {
    match (parsed, meant) {
        (Ok(request), Ok(demand)) => request@ == demand,
        (Err(refusal), Err(fault)) => refusal@ == fault,
        _ => false,
    }
}

/// The bytes that arguments are sent as.
pub fn encode_sequence(data: &Vec<String>) -> (bytes: Vec<u8>)
    ensures
        bytes@ == encoded(texts(data@)),
{
    proof {
        reveal_strlit("\0");
    }
    assert("\0"@ =~= seq![SEPARATOR]);
    join(data, "\0").as_str().as_bytes_vec()
}

/// The refusal of a command that needs more arguments than it came with.
fn refuse_too_few(args: &Vec<String>, needed: usize) -> (refusal: Refusal)
    requires
        args@.len() > 0,
    ensures
        refusal@ == too_few(texts(args@), needed as int),
{
    Refusal::TooFewArguments { command: args[0].clone(), needed, received: args.len() - 1 }
}

impl Request {
    /// What arguments ask.
    pub fn from_arguments(args: &Vec<String>) -> (parsed: Result<Request, Refusal>)
        requires
            args@.len() > 0,
        ensures
            agrees(parsed, demanded(texts(args@))),
    {
        let command = args[0].as_str();
        if *command == *"set" {
            if args.len() < 3 {
                return Err(refuse_too_few(args, 2));
            }
            match Json::parse(args[2].as_str()) {
                Ok(value) => Ok(Request::Put { key: args[1].clone(), value }),
                Err(reason) => Err(
                    Refusal::BadValue { key: args[1].clone(), value: args[2].clone(), reason },
                ),
            }
        } else if *command == *"get" {
            if args.len() < 2 {
                return Err(refuse_too_few(args, 1));
            }
            Ok(Request::Get { key: args[1].clone() })
        } else if *command == *"listen" {
            if args.len() < 2 {
                return Err(refuse_too_few(args, 1));
            }
            let key = args[1].as_str();
            if !(*key == *EXPRESSION_KEY) {
                return Ok(Request::Listen { key: args[1].clone() });
            }
            if args.len() < 5 {
                return Err(refuse_too_few(args, 4));
            }
            match Operation::parse(args[3].as_str()) {
                Some(operation) => Ok(
                    Request::Join { left: args[2].clone(), operation, right: args[4].clone() },
                ),
                None => Err(Refusal::UnknownOperation(args[3].clone())),
            }
        } else {
            Err(Refusal::UnknownCommand(args[0].clone()))
        }
    }

    /// What some bytes ask.
    pub fn from_bytes(bytes: Vec<u8>) -> (parsed: Result<Request, Refusal>)
        ensures
            agrees(parsed, requested(bytes@)),
    {
        match decode(bytes) {
            Some(text) => Request::from_arguments(&split(trim(text.as_str()), SEPARATOR)),
            None => Err(Refusal::NotText),
        }
    }
}

/// Arguments without the white space at the start of the first and at the end of the last.
pub open spec fn stripped(args: Seq<Seq<char>>) -> Seq<Seq<char>> {
    if args.len() == 1 {
        seq![trimmed(args[0])]
    } else {
        args.update(0, trimmed_start(args.first())).update(
            args.len() - 1,
            trimmed_end(args.last()),
        )
    }
}

/// What is sent is what arrives: from bytes that came whole the server takes the arguments of a
/// client as they were written, while none of them holds a separator, but for white space at the
/// start of the first and at the end of the last.
pub proof fn lemma_arguments_arrive(args: Seq<Seq<char>>)
    requires
        args.len() > 0,
        forall|i: int| 0 <= i < args.len() ==> !(#[trigger] args[i]).contains(SEPARATOR),
    ensures
        arguments(encoded(args)) == Some(stripped(args)),
        requested(encoded(args)) == demanded(stripped(args)),
{
    let text = joined(args, seq![SEPARATOR]);
    encode_utf8_valid_utf8(text);
    encode_utf8_decode_utf8(text);
    let left = stripped(args);
    assert(!args[0].contains(SEPARATOR) && !args[args.len() - 1].contains(SEPARATOR));
    lemma_trimmed_is_part(args[0], SEPARATOR);
    lemma_trimmed_is_part(trimmed_start(args[0]), SEPARATOR);
    lemma_trimmed_is_part(args.last(), SEPARATOR);
    assert forall|i: int| 0 <= i < left.len() implies !(#[trigger] left[i]).contains(
        SEPARATOR,
    ) by {
        if 0 < i < left.len() - 1 {
            assert(left[i] == args[i]);
        }
    }
    assert(trimmed(text) == joined(left, seq![SEPARATOR])) by {
        if args.len() > 1 {
            let first = args.update(0, trimmed_start(args.first()));
            lemma_joined_start(args);
            let before = joined(first.drop_last(), seq![SEPARATOR]) + seq![SEPARATOR];
            assert(first.last() == args.last());
            assert(left.drop_last() =~= first.drop_last());
            assert(left.last() == trimmed_end(args.last()));
            lemma_trimmed_end_of_both(before, args.last());
        }
    }
    lemma_split_undoes_join(left, SEPARATOR);
}

/// Arguments without white space around them arrive unchanged.
pub proof fn lemma_plain_arguments_arrive(args: Seq<Seq<char>>)
    requires
        args.len() > 0,
        forall|i: int| 0 <= i < args.len() ==> !(#[trigger] args[i]).contains(SEPARATOR),
        args.first().len() > 0 ==> !is_white(args.first().first()),
        args.last().len() > 0 ==> !is_white(args.last().last()),
    ensures
        stripped(args) == args,
        requested(encoded(args)) == demanded(args),
{
    lemma_arguments_arrive(args);
    if args.len() == 1 {
        lemma_trimmed_stays(args[0]);
    }
    assert(stripped(args) =~= args);
}

/// The white space at the start of joined arguments is that at the start of the first.
proof fn lemma_joined_start(args: Seq<Seq<char>>)
    requires
        args.len() > 1,
    ensures
        trimmed_start(joined(args, seq![SEPARATOR])) == joined(
            args.update(0, trimmed_start(args.first())),
            seq![SEPARATOR],
        ),
    decreases args.len(),
{
    let before = args.drop_last();
    let end = seq![SEPARATOR] + args.last();
    let start = joined(before, seq![SEPARATOR]);
    let updated = args.update(0, trimmed_start(args.first()));
    assert(updated.drop_last() =~= before.update(0, trimmed_start(args.first())));
    assert(joined(args, seq![SEPARATOR]) =~= start + end);
    lemma_trimmed_start_of_both(start, end);
    if args.len() > 2 {
        lemma_joined_start(before);
    }
    assert(trimmed_start(start) == joined(updated.drop_last(), seq![SEPARATOR]));
    assert(updated.last() == args.last());
    assert(joined(updated, seq![SEPARATOR]) =~= trimmed_start(start) + end);
}

/// The characters of the command words. They are told apart, hold no separator and have no white
/// space around them.
pub(crate) proof fn lemma_command_words()
    ensures
        "set"@ == seq!['s', 'e', 't'],
        "get"@ == seq!['g', 'e', 't'],
        "listen"@ == seq!['l', 'i', 's', 't', 'e', 'n'],
        EXPRESSION_KEY@ == seq!['$'],
        "set"@ != "get"@ && "set"@ != "listen"@ && "get"@ != "listen"@,
        trimmed("set"@) == "set"@ && trimmed_start("set"@) == "set"@,
        trimmed("get"@) == "get"@ && trimmed_start("get"@) == "get"@,
        trimmed("listen"@) == "listen"@ && trimmed_start("listen"@) == "listen"@,
        !"set"@.contains(SEPARATOR) && !"get"@.contains(SEPARATOR),
        !"listen"@.contains(SEPARATOR) && !EXPRESSION_KEY@.contains(SEPARATOR),
{
    reveal_strlit("set");
    reveal_strlit("get");
    reveal_strlit("listen");
    reveal_strlit("$");
    assert("set"@ =~= seq!['s', 'e', 't']);
    assert("get"@ =~= seq!['g', 'e', 't']);
    assert("listen"@ =~= seq!['l', 'i', 's', 't', 'e', 'n']);
    assert(EXPRESSION_KEY@ =~= seq!['$']);
    assert("set"@[0] == 's' && "get"@[0] == 'g' && "listen"@[0] == 'l');
    lemma_trimmed_stays("set"@);
    lemma_trimmed_stays("get"@);
    lemma_trimmed_stays("listen"@);
}

/// A client that sends `set`, a key and a text asks to put the value that the text is under
/// exactly that key. Where the text is no JSON, it is told so of that key and text.
pub proof fn lemma_set_asks_to_put(key: Seq<char>, text: Seq<char>)
    requires
        !key.contains('\0'),
        !text.contains('\0'),
    ensures
        requested(encoded(seq![seq!['s', 'e', 't'], key, text])) == match json_parse(
            trimmed_end(text),
        ) {
            Some(value) => Ok::<Demand, Fault>(Demand::Put { key, value }),
            None => Err(
                Fault::BadValue {
                    key,
                    value: trimmed_end(text),
                    reason: json_refusal(trimmed_end(text)),
                },
            ),
        },
{
    lemma_command_words();
    let args = seq!["set"@, key, text];
    lemma_arguments_arrive(args);
    assert(stripped(args) =~= seq!["set"@, key, trimmed_end(text)]);
}

/// A client that sends `get` and a key asks for the value under exactly that key, but for white
/// space at its end.
pub proof fn lemma_get_asks_for_key(key: Seq<char>)
    requires
        !key.contains('\0'),
    ensures
        requested(encoded(seq![seq!['g', 'e', 't'], key])) == Ok::<Demand, Fault>(
            Demand::Get { key: trimmed_end(key) },
        ),
{
    lemma_command_words();
    let args = seq!["get"@, key];
    lemma_arguments_arrive(args);
    assert(stripped(args) =~= seq!["get"@, trimmed_end(key)]);
}

/// A client that sends `listen` and a key asks to listen to exactly that key, but for white space
/// at its end. The dollar sign is no such key.
pub proof fn lemma_listen_asks_for_key(key: Seq<char>)
    requires
        !key.contains('\0'),
        trimmed_end(key) != seq!['$'],
    ensures
        requested(encoded(seq![seq!['l', 'i', 's', 't', 'e', 'n'], key])) == Ok::<Demand, Fault>(
            Demand::Listen { key: trimmed_end(key) },
        ),
{
    lemma_command_words();
    let args = seq!["listen"@, key];
    lemma_arguments_arrive(args);
    assert(stripped(args) =~= seq!["listen"@, trimmed_end(key)]);
}

/// A client that sends `listen`, a dollar sign, a key, an operator and a key asks to listen to
/// what that operator makes of the values under exactly these keys, in this order. An operator
/// that there is not is named in the refusal.
pub proof fn lemma_listen_asks_for_expression(left: Seq<char>, word: Seq<char>, right: Seq<char>)
    requires
        !left.contains('\0'),
        !word.contains('\0'),
        !right.contains('\0'),
    ensures
        requested(
            encoded(seq![seq!['l', 'i', 's', 't', 'e', 'n'], seq!['$'], left, word, right]),
        ) == if word == seq!['a', 'n', 'd'] {
            Ok::<Demand, Fault>(
                Demand::Join { left, operation: Operation::And, right: trimmed_end(right) },
            )
        } else if word == seq!['o', 'r'] {
            Ok(Demand::Join { left, operation: Operation::Or, right: trimmed_end(right) })
        } else {
            Err(Fault::UnknownOperation(word))
        },
{
    lemma_command_words();
    lemma_operators_by_name(word);
    assert(seq!['o', 'r'].len() != seq!['a', 'n', 'd'].len());
    let args = seq!["listen"@, EXPRESSION_KEY@, left, word, right];
    lemma_arguments_arrive(args);
    assert(stripped(args) =~= seq!["listen"@, EXPRESSION_KEY@, left, word, trimmed_end(right)]);
}

/// Whether arguments arrive as they are: none holds a separator, and there is no white space at
/// the start of the first nor at the end of the last.
pub open spec fn is_plain(args: Seq<Seq<char>>) -> bool {
    &&& args.len() > 0
    &&& forall|i: int| 0 <= i < args.len() ==> !(#[trigger] args[i]).contains('\0')
    &&& args.first().len() > 0 ==> !is_white(args.first().first())
    &&& args.last().len() > 0 ==> !is_white(args.last().last())
}

/// Which requests are refused for want of arguments: `set` without two, `get` and `listen`
/// without one, and `listen` for an expression without four. The refusal names the command and
/// counts the arguments behind it.
pub proof fn lemma_commands_need_arguments(args: Seq<Seq<char>>)
    requires
        is_plain(args),
    ensures
        ({
            let needed: int = if args[0] == seq!['s', 'e', 't'] {
                2
            } else if args[0] == seq!['g', 'e', 't'] {
                1
            } else if args[0] == seq!['l', 'i', 's', 't', 'e', 'n'] {
                if args.len() > 1 && args[1] == seq!['$'] {
                    4
                } else {
                    1
                }
            } else {
                0
            };
            let asked = requested(encoded(args));
            &&& args.len() - 1 < needed ==> asked == Err::<Demand, Fault>(
                Fault::TooFewArguments { command: args[0], needed, received: args.len() - 1 },
            )
            &&& args.len() - 1 >= needed ==> !(asked is Err && asked->Err_0 is TooFewArguments)
        }),
{
    lemma_command_words();
    lemma_plain_arguments_arrive(args);
}

/// Which commands there are: any other is refused, by its name.
pub proof fn lemma_other_commands_are_refused(args: Seq<Seq<char>>)
    requires
        is_plain(args),
    ensures
        ({
            let asked = requested(encoded(args));
            if args[0] == seq!['s', 'e', 't'] || args[0] == seq!['g', 'e', 't'] || args[0]
                == seq!['l', 'i', 's', 't', 'e', 'n'] {
                !(asked is Err && asked->Err_0 is UnknownCommand)
            } else {
                asked == Err::<Demand, Fault>(Fault::UnknownCommand(args[0]))
            }
        }),
{
    lemma_command_words();
    lemma_plain_arguments_arrive(args);
}

/// Arguments behind those that a command needs make no difference.
pub proof fn lemma_more_is_passed_over(args: Seq<Seq<char>>, more: Seq<Seq<char>>)
    requires
        is_plain(args),
        is_plain(args + more),
        !(requested(encoded(args)) is Err && requested(encoded(args))->Err_0 is TooFewArguments),
    ensures
        requested(encoded(args + more)) == requested(encoded(args)),
{
    lemma_command_words();
    lemma_plain_arguments_arrive(args);
    lemma_plain_arguments_arrive(args + more);
    assert(forall|i: int| 0 <= i < args.len() ==> (args + more)[i] == args[i]);
}

/// Bytes are refused as no text if and only if they are no UTF-8.
pub proof fn lemma_only_text_is_read(bytes: Seq<u8>)
    ensures
        requested(bytes) == Err::<Demand, Fault>(Fault::NotText) <==> !valid_utf8(bytes),
{
}

/// White space around a request makes no difference.
pub proof fn lemma_white_space_around_request(
    before: Seq<char>,
    text: Seq<char>,
    after: Seq<char>,
)
    requires
        forall|i: int| 0 <= i < before.len() ==> is_white(#[trigger] before[i]),
        forall|i: int| 0 <= i < after.len() ==> is_white(#[trigger] after[i]),
        text.len() > 0 ==> !is_white(text.first()) && !is_white(text.last()),
    ensures
        requested(encode_utf8(before + text + after)) == requested(encode_utf8(text)),
{
    let whole = before + text + after;
    encode_utf8_valid_utf8(whole);
    encode_utf8_decode_utf8(whole);
    encode_utf8_valid_utf8(text);
    encode_utf8_decode_utf8(text);
    lemma_white_space_around(before, text, after);
    lemma_trimmed_stays(text);
}

/// Arguments are sent as their bytes, with one zero byte between each two of them.
pub proof fn lemma_zero_bytes_between(args: Seq<Seq<char>>, more: Seq<Seq<char>>)
    requires
        args.len() > 0,
        more.len() > 0,
    ensures
        encoded(args + more) == encoded(args) + seq![0u8] + encoded(more),
        encoded(seq![more[0]]) == encode_utf8(more[0]),
        encoded(Seq::empty()) == Seq::<u8>::empty(),
{
    let (first, next) = (joined(args, seq![SEPARATOR]), joined(more, seq![SEPARATOR]));
    lemma_joined_in_parts(args, more, seq![SEPARATOR]);
    lemma_encoded_in_a_row(first + seq![SEPARATOR], next);
    lemma_encoded_in_a_row(first, seq![SEPARATOR]);
    assert(0u32 & 0x7f == 0u32) by (bit_vector);
    assert(seq![SEPARATOR].drop_first() =~= Seq::empty());
    assert(encode_utf8(seq![SEPARATOR].drop_first()) =~= Seq::empty());
    assert(encode_utf8(seq![SEPARATOR]) =~= seq![0u8]);
}

/// What a request asks is what it holds, each part in its place.
pub proof fn lemma_requests_by_kind(
    key: String,
    value: Json,
    left: String,
    operation: Operation,
    right: String,
)
    ensures
        (Request::Put { key, value })@ == (Demand::Put { key: key@, value: value@ }),
        (Request::Get { key })@ == (Demand::Get { key: key@ }),
        (Request::Listen { key })@ == (Demand::Listen { key: key@ }),
        (Request::Join { left, operation, right })@ == (Demand::Join {
            left: left@,
            operation,
            right: right@,
        }),
{
}

/// What a refusal says is what it holds, each part in its place.
pub proof fn lemma_refusals_by_kind(
    name: String,
    needed: usize,
    received: usize,
    key: String,
    value: String,
    reason: String,
)
    ensures
        Refusal::NotText@ == Fault::NotText,
        (Refusal::TooFewArguments { command: name, needed, received })@ == (
        Fault::TooFewArguments {
            command: name@,
            needed: needed as int,
            received: received as int,
        }),
        (Refusal::BadValue { key, value, reason })@ == (Fault::BadValue {
            key: key@,
            value: value@,
            reason: reason@,
        }),
        Refusal::UnknownOperation(name)@ == Fault::UnknownOperation(name@),
        Refusal::UnknownCommand(name)@ == Fault::UnknownCommand(name@),
{
}

/// A request is read whole if it has no more than 1024 bytes.
pub proof fn lemma_requests_that_are_read_whole(bytes: Seq<u8>)
    ensures
        bytes.len() <= REQUEST_SIZE <==> bytes.len() <= 1024,
{
}

} // verus!
