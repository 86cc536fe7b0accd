//! What clients get from requests that come one after the other.

use vstd::prelude::*;
use crate::channel::{handed_back, tap};
use crate::connection::{responds, Response};
use crate::document::{comes_back, json_parse, json_text};
use crate::operation::Operation;
use crate::request::{
    encoded, lemma_arguments_arrive, lemma_command_words, lemma_get_asks_for_key,
    lemma_listen_asks_for_expression, lemma_listen_asks_for_key, lemma_set_asks_to_put, requested,
    stripped,
};
use crate::storage::{Contents, Notice};
use crate::text::{is_white, trimmed_end, trimmed_start};
use crate::tree::{same_tree, Tree};

verus! {

/// The bytes of a request to set a key.
pub open spec fn set(key: Seq<char>, text: Seq<char>) -> Seq<u8> {
    encoded(seq![seq!['s', 'e', 't'], key, text])
}

/// The bytes of a request to get the value of a key.
pub open spec fn get(key: Seq<char>) -> Seq<u8> {
    encoded(seq![seq!['g', 'e', 't'], key])
}

/// The bytes of a request to listen to a key.
pub open spec fn listen(key: Seq<char>) -> Seq<u8> {
    encoded(seq![seq!['l', 'i', 's', 't', 'e', 'n'], key])
}

/// The bytes of a request to listen to an expression.
pub open spec fn listen_to_expression(
    left: Seq<char>,
    word: Seq<char>,
    right: Seq<char>,
) -> Seq<u8> {
    encoded(seq![seq!['l', 'i', 's', 't', 'e', 'n'], seq!['$'], left, word, right])
}

/// Whether a key arrives as it is, also at the end of a request: it holds no separator, and no
/// white space is at its end.
pub open spec fn is_key(key: Seq<char>) -> bool {
    &&& !key.contains('\0')
    &&& key.len() > 0 ==> !is_white(key.last())
}

/// White space at the end of a key that has none is none.
proof fn lemma_key_arrives(key: Seq<char>)
    requires
        is_key(key),
    ensures
        trimmed_end(key) == key,
{
}

/// What is set under one key changes nothing of what is got for another.
pub proof fn lemma_set_leaves_other_keys(
    before: Contents,
    key: Seq<char>,
    text: Seq<char>,
    done: Response,
    between: Contents,
    other: Seq<char>,
    reply: Response,
    same: Contents,
    later_reply: Response,
    after: Contents,
)
    requires
        !key.contains('\0'),
        !text.contains('\0'),
        is_key(other),
        other != key,
        responds(before, set(key, text), done, between),
        responds(before, get(other), reply, same),
        responds(between, get(other), later_reply, after),
    ensures
        reply is Reply,
        later_reply is Reply,
        later_reply->Reply_0@ == reply->Reply_0@,
        same == before,
        after == between,
{
    lemma_key_arrives(other);
    lemma_set_asks_to_put(key, text);
    lemma_get_asks_for_key(other);
}

/// A client that gets a key that was set gets the value: its text, which is parsed as the value
/// again. A key that nothing stands under gives null.
pub proof fn lemma_get_after_set(
    before: Contents,
    key: Seq<char>,
    text: Seq<char>,
    value: Tree,
    done: Response,
    between: Contents,
    reply: Response,
    after: Contents,
    first_reply: Response,
    same: Contents,
)
    requires
        is_key(key),
        !text.contains('\0'),
        json_parse(trimmed_end(text)) == Some(value),
        responds(before, set(key, text), done, between),
        responds(between, get(key), reply, after),
        responds(before, get(key), first_reply, same),
    ensures
        done is Done,
        reply is Reply,
        reply->Reply_0@ == json_text(value),
        comes_back(value, 127) ==> json_parse(reply->Reply_0@) == Some(value),
        after == between,
        first_reply is Reply,
        !before.data.contains_key(key) ==> first_reply->Reply_0@ == json_text(Tree::Null),
{
    lemma_key_arrives(key);
    lemma_set_asks_to_put(key, text);
    lemma_get_asks_for_key(key);
}

/// A client that listens to a key is told the value that stands there first: after a set, the
/// one that was set, in a line that is parsed as the value again.
pub proof fn lemma_listen_after_set(
    before: Contents,
    key: Seq<char>,
    text: Seq<char>,
    value: Tree,
    done: Response,
    between: Contents,
    greeting: Response,
    after: Contents,
)
    requires
        is_key(key),
        key != seq!['$'],
        !text.contains('\0'),
        json_parse(trimmed_end(text)) == Some(value),
        responds(before, set(key, text), done, between),
        responds(between, listen(key), greeting, after),
    ensures
        greeting matches Response::Greet { key: asked, line } && {
            &&& asked@ == key
            &&& line@ == json_text(value) + seq!['\n']
            &&& comes_back(value, 127) ==> json_parse(line@) == Some(value)
        },
        after == between,
{
    lemma_key_arrives(key);
    lemma_set_asks_to_put(key, text);
    lemma_listen_asks_for_key(key);
    assert(json_text(value) + seq!['\n'] =~= json_text(value).push('\n'));
}

/// A client that listens to a key is told first, in a line, what a client is told who gets the
/// key.
pub proof fn lemma_listen_begins_with_get(
    contents: Contents,
    key: Seq<char>,
    reply: Response,
    same: Contents,
    greeting: Response,
    after: Contents,
)
    requires
        is_key(key),
        key != seq!['$'],
        responds(contents, get(key), reply, same),
        responds(contents, listen(key), greeting, after),
    ensures
        reply is Reply,
        greeting matches Response::Greet { key: asked, line } && {
            &&& asked@ == key
            &&& line@ == reply->Reply_0@ + seq!['\n']
        },
        same == contents,
        after == contents,
{
    lemma_key_arrives(key);
    lemma_get_asks_for_key(key);
    lemma_listen_asks_for_key(key);
    let text = reply->Reply_0@;
    assert(text + seq!['\n'] =~= text.push('\n'));
}

/// A client that listens to an expression over two keys that were set is told first what the
/// operator makes of the two values.
pub proof fn lemma_expression_after_sets(
    before: Contents,
    left: Seq<char>,
    left_text: Seq<char>,
    x: Tree,
    first_done: Response,
    between: Contents,
    right: Seq<char>,
    right_text: Seq<char>,
    y: Tree,
    second_done: Response,
    later: Contents,
    word: Seq<char>,
    operation: Operation,
    response: Response,
    after: Contents,
)
    requires
        is_key(left),
        is_key(right),
        left != right,
        !left_text.contains('\0'),
        !right_text.contains('\0'),
        json_parse(trimmed_end(left_text)) == Some(x),
        json_parse(trimmed_end(right_text)) == Some(y),
        (word == seq!['a', 'n', 'd'] && operation is And) || (word == seq!['o', 'r']
            && operation is Or),
        responds(before, set(left, left_text), first_done, between),
        responds(between, set(right, right_text), second_done, later),
        responds(later, listen_to_expression(left, word, right), response, after),
    ensures
        response is Follow,
        response->joint@.value() == operation.applied(x, y),
        response->joint@.operation == operation,
        response->joint@.left == x,
        response->joint@.right == y,
{
    lemma_key_arrives(right);
    lemma_word(word);
    lemma_set_asks_to_put(left, left_text);
    lemma_set_asks_to_put(right, right_text);
    lemma_listen_asks_for_expression(left, word, right);
}

/// A client that listens to an expression is told first what the operator makes of the values
/// that clients are told who get the two keys, which may be one key, at that time.
pub proof fn lemma_expression_begins_with_gets(
    contents: Contents,
    left: Seq<char>,
    left_reply: Response,
    left_same: Contents,
    right: Seq<char>,
    right_reply: Response,
    right_same: Contents,
    word: Seq<char>,
    operation: Operation,
    response: Response,
    after: Contents,
)
    requires
        is_key(left),
        is_key(right),
        (word == seq!['a', 'n', 'd'] && operation is And) || (word == seq!['o', 'r']
            && operation is Or),
        responds(contents, get(left), left_reply, left_same),
        responds(contents, get(right), right_reply, right_same),
        responds(contents, listen_to_expression(left, word, right), response, after),
    ensures
        response is Follow,
        ({
            let joint = response->joint@;
            &&& left_reply is Reply && left_reply->Reply_0@ == json_text(joint.left)
            &&& right_reply is Reply && right_reply->Reply_0@ == json_text(joint.right)
            &&& joint.value() == operation.applied(joint.left, joint.right)
            &&& joint.left == contents.read(left)
            &&& joint.right == contents.read(right)
        }),
{
    lemma_key_arrives(left);
    lemma_key_arrives(right);
    lemma_word(word);
    lemma_get_asks_for_key(left);
    lemma_get_asks_for_key(right);
    lemma_listen_asks_for_expression(left, word, right);
}

/// A client that listens to an expression hears from then on of both its keys: its receivers are
/// at the end of the channels of the left and the right key. No value changes, and no channel
/// that was there.
pub proof fn lemma_expression_hears_both_keys(
    contents: Contents,
    left: Seq<char>,
    word: Seq<char>,
    right: Seq<char>,
    response: Response,
    after: Contents,
    other: Seq<char>,
)
    requires
        is_key(left),
        is_key(right),
        word == seq!['a', 'n', 'd'] || word == seq!['o', 'r'],
        responds(contents, listen_to_expression(left, word, right), response, after),
    ensures
        response is Follow,
        after.listeners.contains_key(left),
        after.listeners.contains_key(right),
        tap(response->left).channel == after.listeners[left].id,
        tap(response->left).hears(after.listeners[left]) == Seq::<Tree>::empty(),
        tap(response->right).channel == after.listeners[right].id,
        tap(response->right).hears(after.listeners[right]) == Seq::<Tree>::empty(),
        after.data == contents.data,
        contents.listeners.contains_key(other) ==> after.listeners.contains_key(other)
            && after.listeners[other] == contents.listeners[other],
        other != left && other != right ==> after.listeners.contains_key(other)
            == contents.listeners.contains_key(other),
{
    lemma_key_arrives(right);
    lemma_word(word);
    lemma_listen_asks_for_expression(left, word, right);
    let (first, second) = (after.listeners[left], after.listeners[right]);
    assert(tap(response->left).hears(first) =~= Seq::<Tree>::empty());
    assert(tap(response->right).hears(second) =~= Seq::<Tree>::empty());
}

/// The words for the two operators hold no separator.
proof fn lemma_word(word: Seq<char>)
    requires
        word == seq!['a', 'n', 'd'] || word == seq!['o', 'r'],
    ensures
        !word.contains('\0'),
        seq!['a', 'n', 'd'] != seq!['o', 'r'],
{
    assert(seq!['a', 'n', 'd'].len() != seq!['o', 'r'].len());
    assert forall|i: int| 0 <= i < word.len() implies word[i] != '\0' by {
        if word == seq!['o', 'r'] {
            assert(word[0] == 'o' && word[1] == 'r');
        } else {
            assert(word[0] == 'a' && word[1] == 'n' && word[2] == 'd');
        }
    }
}

/// A set is told to those who listen to the key if and only if it changes the value that the key
/// reads as: the value goes on the channel of the key, behind what it had taken, or comes back
/// from it where no receiver is left. Listeners of other keys are not told.
pub proof fn lemma_set_tells_of_changes(
    before: Contents,
    key: Seq<char>,
    text: Seq<char>,
    value: Tree,
    done: Response,
    after: Contents,
    other: Seq<char>,
)
    requires
        !key.contains('\0'),
        !text.contains('\0'),
        json_parse(trimmed_end(text)) == Some(value),
        responds(before, set(key, text), done, after),
    ensures
        done is Done,
        ({
            let notice = done->Done_0;
            let current = if before.data.contains_key(key) {
                before.data[key]
            } else {
                Tree::Null
            };
            if !before.listeners.contains_key(key) || same_tree(current, value) {
                notice is Silent && after.listeners == before.listeners
            } else {
                match notice {
                    Notice::Silent => false,
                    Notice::Sent => {
                        &&& after.listeners.contains_key(key)
                        &&& after.listeners[key].id == before.listeners[key].id
                        &&& after.listeners[key].sent == before.listeners[key].sent + seq![value]
                    },
                    Notice::Unheard(refused) => {
                        &&& handed_back(refused.error) == value
                        &&& refused.by@ == before.listeners[key]
                        &&& after.listeners == before.listeners
                    },
                }
            }
        }),
        other != key ==> after.listeners.contains_key(other) == before.listeners.contains_key(
            other,
        ),
        other != key ==> after.listeners[other] == before.listeners[other],
        after.data.contains_key(key) && after.data[key] == value,
        other != key ==> after.data.contains_key(other) == before.data.contains_key(other),
        other != key ==> after.data[other] == before.data[other],
{
    lemma_set_asks_to_put(key, text);
    if before.listeners.contains_key(key) {
        let sent = before.listeners[key].sent;
        assert(sent.push(value) =~= sent + seq![value]);
    }
}

/// Only a set changes a value, only listening to an expression opens a channel, and what is
/// refused changes nothing.
pub proof fn lemma_who_changes_what(
    before: Contents,
    args: Seq<Seq<char>>,
    response: Response,
    after: Contents,
)
    requires
        args.len() > 1,
        forall|i: int| 0 <= i < args.len() ==> !(#[trigger] args[i]).contains('\0'),
        responds(before, encoded(args), response, after),
    ensures
        trimmed_start(args[0]) != seq!['s', 'e', 't'] ==> after.data == before.data && !(
        response is Done),
        trimmed_start(args[0]) != seq!['g', 'e', 't'] ==> !(response is Reply),
        trimmed_start(args[0]) != seq!['l', 'i', 's', 't', 'e', 'n'] ==> !(response is Greet) && !(
        response is Follow),
        response is Reply || response is Greet || response is Refuse ==> after == before,
        response is Refuse <==> requested(encoded(args)) is Err,
        response is Refuse ==> response->Refuse_0@ == requested(encoded(args))->Err_0,
{
    lemma_command_words();
    lemma_arguments_arrive(args);
    assert(stripped(args)[0] == trimmed_start(args[0]));
}

} // verus!
