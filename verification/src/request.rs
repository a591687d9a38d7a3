//! Framing of a request: one line of text, as the bytes that go on the wire.

use crate::text::{first_break, join, lemma_first_break_at, lemma_join_push, unbroken};
use vstd::prelude::*;
use vstd::string::{StrSliceExecFns, StringExecFns, StringSliceAdditionalSpecFns};
use vstd::utf8::encode_utf8;

verus! {

/// The request line: the command and its arguments in order, single spaces
/// between them, and one line feed at the end.
pub open spec fn request_line(command: Seq<char>, args: Seq<Seq<char>>) -> Seq<char> {
    join(seq![command] + args, ' ') + seq!['\n']
}

/// The request as it is written to the device: the request line in UTF-8.
pub open spec fn request_bytes(command: Seq<char>, args: Seq<Seq<char>>) -> Seq<u8> {
    encode_utf8(request_line(command, args))
}

/// The request line for `command` and `args`.
pub fn build_request(command: &str, args: &Vec<String>) -> (request: String)
    ensures
        request@ == request_line(command@, args.deep_view()),
{
    let mut request = command.to_owned();
    let ghost words = args.deep_view();
    let mut at: usize = 0;
    proof {
        assert(seq![command@] + words.take(0) =~= seq![command@]);
    }
    while at < args.len()
        invariant
            at <= args.len(),
            words == args.deep_view(),
            request@ == join(seq![command@] + words.take(at as int), ' '),
        decreases args.len() - at,
    {
        request.push(' ');
        request.append(args[at].as_str());
        proof {
            let before = seq![command@] + words.take(at as int);
            assert(seq![command@] + words.take(at + 1) =~= before.push(words[at as int]));
            lemma_join_push(before, words[at as int], ' ');
        }
        at += 1;
    }
    proof {
        assert(words.take(at as int) =~= words);
    }
    request.push('\n');
    request
}

/// The bytes of the request for `command` and `args`.
pub fn frame_request(command: &str, args: &Vec<String>) -> (bytes: Vec<u8>)
    ensures
        bytes@ == request_bytes(command@, args.deep_view()),
{
    build_request(command, args).as_str().as_bytes_vec()
}

/// Words without a line feed, joined by spaces, hold no line feed.
proof fn lemma_join_unbroken(parts: Seq<Seq<char>>)
    requires
        forall|i: int| 0 <= i < parts.len() ==> unbroken(#[trigger] parts[i]),
    ensures
        unbroken(join(parts, ' ')),
    decreases parts.len(),
{
    if parts.len() == 0 {
    } else if parts.len() == 1 {
        assert(unbroken(parts[0]));
    } else {
        let rest = parts.drop_first();
        assert forall|i: int| 0 <= i < rest.len() implies unbroken(#[trigger] rest[i]) by {
            assert(rest[i] == parts[i + 1]);
        }
        lemma_join_unbroken(rest);
        assert(unbroken(parts[0]));
    }
}

/// A request whose command and arguments hold no line feed is one line: its
/// only line feed is its last character.
pub proof fn lemma_request_is_one_line(command: Seq<char>, args: Seq<Seq<char>>)
    requires
        unbroken(command),
        forall|i: int| 0 <= i < args.len() ==> unbroken(#[trigger] args[i]),
    ensures
        first_break(request_line(command, args)) == request_line(command, args).len() - 1,
{
    let words = seq![command] + args;
    assert forall|i: int| 0 <= i < words.len() implies unbroken(#[trigger] words[i]) by {
        if i > 0 {
            assert(words[i] == args[i - 1]);
        }
    }
    lemma_join_unbroken(words);
    let line = request_line(command, args);
    assert(line.take(line.len() - 1) =~= join(words, ' '));
    lemma_first_break_at(line, line.len() - 1);
}

} // verus!
