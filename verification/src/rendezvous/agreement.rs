//! The device and the rendezvous server understand each other: the lines
//! a device sends are read by the server as the requests meant, and the
//! server's answers are read by the device as the outcomes meant.

use crate::rendezvous::server::{command_kind, flush, split_from, split_whitespace_spec};
use crate::text::{is_unicode_whitespace, starts_with_spec, trim_end_chars};
use vstd::prelude::*;

verus! {

/// Whether `w` holds no whitespace, so that it stays one word.
pub open spec fn no_whitespace(w: Seq<char>) -> bool {
    forall|i: int| 0 <= i < w.len() ==> !is_unicode_whitespace(#[trigger] w[i])
}

/// A word without whitespace is read whole into the word being read.
proof fn lemma_split_word(w: Seq<char>, rest: Seq<char>, cur: Seq<char>, acc: Seq<Seq<char>>)
    requires
        no_whitespace(w),
    ensures
        split_from(w + rest, cur, acc) == split_from(rest, cur + w, acc),
    decreases w.len(),
{
    if w.len() == 0 {
        assert(w + rest =~= rest);
        assert(cur + w =~= cur);
    } else {
        let s = w + rest;
        assert(s[0] == w[0]);
        assert(s.drop_first() =~= w.drop_first() + rest);
        lemma_split_word(w.drop_first(), rest, cur.push(w[0]), acc);
        assert(cur.push(w[0]) + w.drop_first() =~= cur + w);
    }
}

/// A whitespace character ends the word being read.
proof fn lemma_split_space(c: char, rest: Seq<char>, cur: Seq<char>, acc: Seq<Seq<char>>)
    requires
        is_unicode_whitespace(c),
    ensures
        split_from(seq![c] + rest, cur, acc) == split_from(rest, Seq::empty(), flush(acc, cur)),
{
    let s = seq![c] + rest;
    assert(s[0] == c);
    assert(s.drop_first() =~= rest);
}

/// The words of a line made of a keyword, then the given words, each after
/// one space, then a line break.
proof fn lemma_words_of_request(keyword: Seq<char>, args: Seq<Seq<char>>)
    requires
        keyword.len() > 0,
        no_whitespace(keyword),
        forall|i: int| 0 <= i < args.len() ==> (#[trigger] args[i]).len() > 0 && no_whitespace(
            args[i],
        ),
    ensures
        split_whitespace_spec(request_line(keyword, args)) == seq![keyword] + args,
{
    lemma_words_from(keyword, args, Seq::empty(), Seq::empty());
    assert(Seq::<char>::empty() + keyword =~= keyword);
    assert(Seq::<Seq<char>>::empty().push(keyword) + args =~= seq![keyword] + args);
}

/// The characters of a request line.
pub open spec fn request_line(keyword: Seq<char>, args: Seq<Seq<char>>) -> Seq<char> {
    keyword + args_text(args)
}

/// Each argument after one space, then a line break.
pub open spec fn args_text(args: Seq<Seq<char>>) -> Seq<char>
    decreases args.len(),
{
    if args.len() == 0 {
        seq!['\n']
    } else {
        seq![' '] + args[0] + args_text(args.drop_first())
    }
}

proof fn lemma_words_from(
    word: Seq<char>,
    args: Seq<Seq<char>>,
    cur: Seq<char>,
    acc: Seq<Seq<char>>,
)
    requires
        cur.len() + word.len() > 0,
        no_whitespace(word),
        forall|i: int| 0 <= i < args.len() ==> (#[trigger] args[i]).len() > 0 && no_whitespace(
            args[i],
        ),
    ensures
        split_from(word + args_text(args), cur, acc) == acc.push(cur + word) + args,
    decreases args.len(),
{
    lemma_split_word(word, args_text(args), cur, acc);
    if args.len() == 0 {
        assert(is_unicode_whitespace('\n'));
        lemma_split_space('\n', Seq::empty(), cur + word, acc);
        assert(acc.push(cur + word) + args =~= acc.push(cur + word));
    } else {
        assert(is_unicode_whitespace(' '));
        let rest = args[0] + args_text(args.drop_first());
        assert(args_text(args) =~= seq![' '] + rest);
        lemma_split_space(' ', rest, cur + word, acc);
        assert(args[0].len() > 0 && no_whitespace(args[0]));
        assert forall|i: int| 0 <= i < args.drop_first().len() implies (
        #[trigger] args.drop_first()[i]).len() > 0 && no_whitespace(args.drop_first()[i]) by {
            assert(args.drop_first()[i] == args[i + 1]);
        }
        lemma_words_from(args[0], args.drop_first(), Seq::empty(), acc.push(cur + word));
        assert(Seq::<char>::empty() + args[0] =~= args[0]);
        assert(acc.push(cur + word).push(args[0]) + args.drop_first() =~= acc.push(cur + word)
            + args);
    }
}

/// A `REGISTER` line that a device sends for a device ID and endpoint
/// without whitespace is read by the server as that registration.
pub proof fn lemma_register_request_understood(device_id: Seq<char>, endpoint: Seq<char>)
    requires
        device_id.len() > 0,
        endpoint.len() > 0,
        no_whitespace(device_id),
        no_whitespace(endpoint),
    ensures
        split_whitespace_spec("REGISTER "@ + device_id + " "@ + endpoint + "\n"@) == seq![
            "REGISTER"@,
            device_id,
            endpoint,
        ],
        command_kind(split_whitespace_spec("REGISTER "@ + device_id + " "@ + endpoint + "\n"@))
            == 1,
{
    reveal_strlit("REGISTER ");
    reveal_strlit("REGISTER");
    reveal_strlit(" ");
    reveal_strlit("\n");
    let args = seq![device_id, endpoint];
    assert(args[0] == device_id && args[1] == endpoint);
    assert(args.drop_first() =~= seq![endpoint]);
    assert(seq![endpoint].drop_first() =~= Seq::<Seq<char>>::empty());
    assert(args_text(Seq::<Seq<char>>::empty()) == "\n"@);
    assert(args_text(seq![endpoint]) == seq![' '] + endpoint + "\n"@);
    assert(args_text(args) == seq![' '] + device_id + (seq![' '] + endpoint + "\n"@));
    assert(request_line("REGISTER"@, args) =~= "REGISTER "@ + device_id + " "@ + endpoint
        + "\n"@);
    lemma_words_of_request("REGISTER"@, args);
    assert(seq!["REGISTER"@] + args =~= seq!["REGISTER"@, device_id, endpoint]);
}

/// A `HEARTBEAT` line for a device ID without whitespace is read by the
/// server as a heartbeat of that device.
pub proof fn lemma_heartbeat_request_understood(device_id: Seq<char>)
    requires
        device_id.len() > 0,
        no_whitespace(device_id),
    ensures
        split_whitespace_spec("HEARTBEAT "@ + device_id + "\n"@) == seq!["HEARTBEAT"@, device_id],
        command_kind(split_whitespace_spec("HEARTBEAT "@ + device_id + "\n"@)) == 2,
{
    reveal_strlit("HEARTBEAT ");
    reveal_strlit("HEARTBEAT");
    reveal_strlit("\n");
    let args = seq![device_id];
    assert(args.drop_first() =~= Seq::<Seq<char>>::empty());
    assert(args_text(Seq::<Seq<char>>::empty()) == "\n"@);
    assert(args_text(args) == seq![' '] + device_id + "\n"@);
    assert(request_line("HEARTBEAT"@, args) =~= "HEARTBEAT "@ + device_id + "\n"@);
    lemma_words_of_request("HEARTBEAT"@, args);
    assert(seq!["HEARTBEAT"@] + args =~= seq!["HEARTBEAT"@, device_id]);
}

/// A `LOOKUP` line for a device ID without whitespace is read by the server
/// as a lookup of that device.
pub proof fn lemma_lookup_request_understood(device_id: Seq<char>)
    requires
        device_id.len() > 0,
        no_whitespace(device_id),
    ensures
        split_whitespace_spec("LOOKUP "@ + device_id + "\n"@) == seq!["LOOKUP"@, device_id],
        command_kind(split_whitespace_spec("LOOKUP "@ + device_id + "\n"@)) == 3,
{
    reveal_strlit("LOOKUP ");
    reveal_strlit("LOOKUP");
    reveal_strlit("REGISTER");
    reveal_strlit("HEARTBEAT");
    reveal_strlit("\n");
    let args = seq![device_id];
    assert(args.drop_first() =~= Seq::<Seq<char>>::empty());
    assert(args_text(Seq::<Seq<char>>::empty()) == "\n"@);
    assert(args_text(args) == seq![' '] + device_id + "\n"@);
    assert(request_line("LOOKUP"@, args) =~= "LOOKUP "@ + device_id + "\n"@);
    lemma_words_of_request("LOOKUP"@, args);
    assert(seq!["LOOKUP"@] + args =~= seq!["LOOKUP"@, device_id]);
    assert("LOOKUP"@ != "REGISTER"@ && "LOOKUP"@ != "HEARTBEAT"@) by {
        assert("LOOKUP"@[0] != "REGISTER"@[0]);
        assert("LOOKUP"@[0] != "HEARTBEAT"@[0]);
    }
}

/// The server's `FOUND` answer for an endpoint without trailing whitespace
/// is read by the device as that endpoint, and its fixed answers are read
/// as what they mean.
pub proof fn lemma_answers_understood(endpoint: Seq<char>)
    requires
        endpoint.len() > 0,
        !is_unicode_whitespace(endpoint.last()),
    ensures
        trim_end_chars("FOUND "@ + endpoint + "\n"@) == "FOUND "@ + endpoint,
        starts_with_spec("FOUND "@ + endpoint, "FOUND "@),
        ("FOUND "@ + endpoint).skip("FOUND "@.len() as int) == endpoint,
        "FOUND "@ + endpoint != "NOT_FOUND"@,
        trim_end_chars("NOT_FOUND\n"@) == "NOT_FOUND"@,
        trim_end_chars("OK registered\n"@) == "OK registered"@,
        trim_end_chars("OK heartbeat\n"@) == "OK heartbeat"@,
{
    reveal_strlit("FOUND ");
    reveal_strlit("\n");
    reveal_strlit("NOT_FOUND\n");
    reveal_strlit("NOT_FOUND");
    reveal_strlit("OK registered\n");
    reveal_strlit("OK registered");
    reveal_strlit("OK heartbeat\n");
    reveal_strlit("OK heartbeat");
    let found = "FOUND "@ + endpoint;
    let line = found + "\n"@;
    assert(is_unicode_whitespace('\n'));
    assert(line.drop_last() =~= found);
    assert(line.last() == '\n');
    assert(found.last() == endpoint.last());
    assert(trim_end_chars(found) == found);
    assert(trim_end_chars(line) == trim_end_chars(found));
    assert(found.take(6) =~= "FOUND "@);
    assert(found.skip(6) =~= endpoint);
    assert(found[0] != "NOT_FOUND"@[0]);
    assert("NOT_FOUND\n"@.drop_last() =~= "NOT_FOUND"@);
    assert(trim_end_chars("NOT_FOUND"@) == "NOT_FOUND"@);
    assert("OK registered\n"@.drop_last() =~= "OK registered"@);
    assert(trim_end_chars("OK registered"@) == "OK registered"@);
    assert("OK heartbeat\n"@.drop_last() =~= "OK heartbeat"@);
    assert(trim_end_chars("OK heartbeat"@) == "OK heartbeat"@);
}

} // verus!
