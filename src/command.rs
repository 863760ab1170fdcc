use vstd::prelude::*;
use crate::parse::{classify, kind_name, kind_name_of, parse_ttl, parse_value, render, render_value, tokenize, tokens_of, ttl_of};
use crate::state::{expiry, live, renamed, State, Stored, DEFAULT_TTL_SECS};
use crate::text::{owned, str_eq};
use crate::value::strings_view;

verus! {

/// The upper-case form of a string, as std's `str::to_uppercase` gives it.
pub uninterp spec fn upper_of(s: Seq<char>) -> Seq<char>;

/// Relies on `str::to_uppercase`: the result depends on the characters of
/// `s` alone.
#[verifier::external_body]
fn to_upper(s: &str) -> (r: String)
    ensures
        r@ == upper_of(s@),
{
    s.to_uppercase()
}

/// The spellings of the verbs, which tell them apart.
pub proof fn verb_spellings()
    ensures
        "SET"@ == seq!['S', 'E', 'T'],
        "GET"@ == seq!['G', 'E', 'T'],
        "UPDATE"@ == seq!['U', 'P', 'D', 'A', 'T', 'E'],
        "DEL"@ == seq!['D', 'E', 'L'],
        "DELETE"@ == seq!['D', 'E', 'L', 'E', 'T', 'E'],
        "EXISTS"@ == seq!['E', 'X', 'I', 'S', 'T', 'S'],
        "RENAME"@ == seq!['R', 'E', 'N', 'A', 'M', 'E'],
        "TYPE"@ == seq!['T', 'Y', 'P', 'E'],
        "CLEARALL"@ == seq!['C', 'L', 'E', 'A', 'R', 'A', 'L', 'L'],
        "PING"@ == seq!['P', 'I', 'N', 'G'],
{
    reveal_strlit("SET");
    reveal_strlit("GET");
    reveal_strlit("UPDATE");
    reveal_strlit("DEL");
    reveal_strlit("DELETE");
    reveal_strlit("EXISTS");
    reveal_strlit("RENAME");
    reveal_strlit("TYPE");
    reveal_strlit("CLEARALL");
    reveal_strlit("PING");
}

/// How many arguments a verb needs before it does anything.
pub open spec fn min_args(verb: Seq<char>) -> int {
    if verb == "SET"@ || verb == "UPDATE"@ || verb == "RENAME"@ {
        2
    } else if verb == "GET"@ || verb == "DEL"@ || verb == "DELETE"@ || verb == "EXISTS"@
        || verb == "TYPE"@ {
        1
    } else {
        0
    }
}

/// The decimal text of a verb's minimum argument count.
pub open spec fn count_text(n: int) -> Seq<char> {
    if n == 1 {
        "1"@
    } else {
        "2"@
    }
}

/// The reply to a command that lacks arguments.
pub open spec fn too_few_reply(verb: Seq<char>, n: int) -> Seq<char> {
    "Error: "@ + verb + " command requires at least "@ + count_text(n) + " arguments\r\n"@
}

/// The time-to-live that the arguments of `SET` or `UPDATE` ask for.
pub open spec fn ttl_arg(args: Seq<Seq<char>>) -> u64 {
    if args.len() > 2 {
        ttl_of(args[2])
    } else {
        DEFAULT_TTL_SECS
    }
}

/// The store after a write of `args[1]` under `args[0]` at `now`.
pub open spec fn written(db: Map<Seq<char>, Stored>, args: Seq<Seq<char>>, now: int) -> Map<
    Seq<char>,
    Stored,
> {
    db.insert(args[0], (classify(args[1]), expiry(now, ttl_arg(args) as int)))
}

/// What a command does: the store after it and the reply line, for the
/// upper-cased verb `verb` and the arguments `args`, at `now` milliseconds.
pub open spec fn respond(db: Map<Seq<char>, Stored>, verb: Seq<char>, args: Seq<Seq<char>>, now: int) -> (
    Map<Seq<char>, Stored>,
    Seq<char>,
) {
    if args.len() < min_args(verb) {
        (db, too_few_reply(verb, min_args(verb)))
    } else if verb == "SET"@ {
        (written(db, args, now), "OK\r\n"@)
    } else if verb == "GET"@ {
        match live(db, args[0], now) {
            Some(v) => (db, render(v) + "\r\n"@),
            None => (db, "Nil\r\n"@),
        }
    } else if verb == "UPDATE"@ {
        if live(db, args[0], now) is Some {
            (written(db, args, now), "OK\r\n"@)
        } else {
            (db, "Error: Key does not exist\r\n"@)
        }
    } else if verb == "DEL"@ || verb == "DELETE"@ {
        (db.remove(args[0]), "OK\r\n"@)
    } else if verb == "EXISTS"@ {
        if live(db, args[0], now) is Some {
            (db, "YES\r\n"@)
        } else {
            (db, "NO\r\n"@)
        }
    } else if verb == "RENAME"@ {
        match renamed(db, args[0], args[1], now) {
            Some(m) => (m, "OK\r\n"@),
            None => (db, "Error: Key does not exist\r\n"@),
        }
    } else if verb == "TYPE"@ {
        match live(db, args[0], now) {
            Some(v) => (db, kind_name(v) + "\r\n"@),
            None => (db, "Nil\r\n"@),
        }
    } else if verb == "CLEARALL"@ {
        (Map::empty(), "OK\r\n"@)
    } else if verb == "PING"@ {
        (db, "PONG\r\n"@)
    } else {
        (db, "Unknown command\r\n"@)
    }
}

/// What a command line does: no tokens is an error; otherwise the first
/// token, upper-cased, is the verb and the rest are its arguments.
pub open spec fn respond_line(db: Map<Seq<char>, Stored>, line: Seq<char>, now: int) -> (
    Map<Seq<char>, Stored>,
    Seq<char>,
) {
    let t = tokens_of(line);
    if t.len() == 0 {
        (db, "Error: Empty command\r\n"@)
    } else {
        respond(db, upper_of(t[0]), t.drop_first(), now)
    }
}

/// How many arguments `verb` needs, as `min_args` gives it.
fn min_args_of(verb: &str) -> (r: usize)
    ensures
        r as int == min_args(verb@),
{
    if str_eq(verb, "SET") || str_eq(verb, "UPDATE") || str_eq(verb, "RENAME") {
        2
    } else if str_eq(verb, "GET") || str_eq(verb, "DEL") || str_eq(verb, "DELETE") || str_eq(
        verb,
        "EXISTS",
    ) || str_eq(verb, "TYPE") {
        1
    } else {
        0
    }
}

/// `s` ended with the reply terminator.
fn with_crlf(mut s: String) -> (r: String)
    ensures
        r@ == s@ + "\r\n"@,
{
    s.append("\r\n");
    s
}

/// The reply to a command that lacks arguments, as `too_few_reply` gives it.
fn too_few_message(verb: &str, need: usize) -> (r: String)
    ensures
        r@ == too_few_reply(verb@, need as int),
{
    let mut m = owned("Error: ");
    m.append(verb);
    m.append(" command requires at least ");
    if need == 1 {
        m.append("1");
    } else {
        m.append("2");
    }
    m.append(" arguments\r\n");
    m
}

/// The reply to a command whose verb only reads and which has the
/// arguments it needs.
fn read_reply(state: &State, verb: &str, args: &Vec<String>, now: u64) -> (r: String)
    requires
        state.wf(),
        reads_only(verb@),
        args@.len() >= min_args(verb@),
    ensures
        respond(state@, verb@, strings_view(args@), now as int) == (state@, r@),
{
    let ghost a = strings_view(args@);
    assert(a.len() == args@.len());
    proof {
        verb_spellings();
    }
    if str_eq(verb, "GET") {
        assert(a[0] == args@[0]@);
        match state.get(args[0].as_str(), now) {
            Some(v) => with_crlf(render_value(&v)),
            None => owned("Nil\r\n"),
        }
    } else if str_eq(verb, "EXISTS") {
        assert(a[0] == args@[0]@);
        if state.contains(args[0].as_str(), now) {
            owned("YES\r\n")
        } else {
            owned("NO\r\n")
        }
    } else if str_eq(verb, "TYPE") {
        assert(a[0] == args@[0]@);
        match state.get(args[0].as_str(), now) {
            Some(v) => with_crlf(kind_name_of(&v)),
            None => owned("Nil\r\n"),
        }
    } else {
        owned("PONG\r\n")
    }
}

/// Applies one command, given its upper-cased verb and its arguments, to the
/// store at `now` milliseconds, and returns the reply line.
pub fn apply_command(state: &mut State, verb: &str, args: &Vec<String>, now: u64) -> (r: String)
    requires
        old(state).wf(),
    ensures
        final(state).wf(),
        (final(state)@, r@) == respond(old(state)@, verb@, strings_view(args@), now as int),
{
    let ghost a = strings_view(args@);
    assert(a.len() == args@.len());
    let need = min_args_of(verb);
    if args.len() < need {
        return too_few_message(verb, need);
    }
    if str_eq(verb, "GET") || str_eq(verb, "EXISTS") || str_eq(verb, "TYPE") || str_eq(verb, "PING") {
        return read_reply(&*state, verb, args, now);
    }
    if str_eq(verb, "SET") {
        assert(a[0] == args@[0]@ && a[1] == args@[1]@);
        let ttl = if args.len() > 2 {
            assert(a[2] == args@[2]@);
            parse_ttl(args[2].as_str())
        } else {
            DEFAULT_TTL_SECS
        };
        state.set(args[0].clone(), parse_value(args[1].as_str()), ttl, now);
        owned("OK\r\n")
    } else if str_eq(verb, "UPDATE") {
        assert(a[0] == args@[0]@ && a[1] == args@[1]@);
        if state.contains(args[0].as_str(), now) {
            let ttl = if args.len() > 2 {
                assert(a[2] == args@[2]@);
                parse_ttl(args[2].as_str())
            } else {
                DEFAULT_TTL_SECS
            };
            state.set(args[0].clone(), parse_value(args[1].as_str()), ttl, now);
            owned("OK\r\n")
        } else {
            owned("Error: Key does not exist\r\n")
        }
    } else if str_eq(verb, "DEL") || str_eq(verb, "DELETE") {
        assert(a[0] == args@[0]@);
        state.delete(args[0].as_str());
        owned("OK\r\n")
    } else if str_eq(verb, "RENAME") {
        assert(a[0] == args@[0]@ && a[1] == args@[1]@);
        match state.rename(args[0].as_str(), args[1].as_str(), now) {
            Ok(()) => owned("OK\r\n"),
            Err(_) => owned("Error: Key does not exist\r\n"),
        }
    } else if str_eq(verb, "CLEARALL") {
        state.clear();
        owned("OK\r\n")
    } else {
        owned("Unknown command\r\n")
    }
}

/// Interprets one line of client input against the store at `now`
/// milliseconds, and returns the reply line.
pub fn interpret_line(state: &mut State, line: &str, now: u64) -> (r: String)
    requires
        old(state).wf(),
    ensures
        final(state).wf(),
        (final(state)@, r@) == respond_line(old(state)@, line@, now as int),
{
    let mut tokens = tokenize(line);
    if tokens.len() == 0 {
        return owned("Error: Empty command\r\n");
    }
    let ghost tv = strings_view(tokens@);
    let verb = to_upper(tokens[0].as_str());
    let args = tokens.split_off(1);
    assert(strings_view(args@) =~= tv.drop_first());
    apply_command(state, verb.as_str(), &args, now)
}


/// The verbs that never change the store.
pub open spec fn reads_only(verb: Seq<char>) -> bool {
    verb == "GET"@ || verb == "EXISTS"@ || verb == "TYPE"@ || verb == "PING"@
}

/// Whether a line is a command whose verb never changes the store.
pub open spec fn line_reads_only(line: Seq<char>) -> bool {
    tokens_of(line).len() > 0 && reads_only(upper_of(tokens_of(line)[0]))
}

/// Answers a line whose verb only reads, with shared access to the store;
/// `None` for any other line, which needs `interpret_line`.
pub fn answer_read(state: &State, line: &str, now: u64) -> (r: Option<String>)
    requires
        state.wf(),
    ensures
        r is Some <==> line_reads_only(line@),
        r matches Some(x) ==> respond_line(state@, line@, now as int) == (state@, x@),
{
    let mut tokens = tokenize(line);
    if tokens.len() == 0 {
        return None;
    }
    let ghost tv = strings_view(tokens@);
    let verb_text = to_upper(tokens[0].as_str());
    let verb = verb_text.as_str();
    let args = tokens.split_off(1);
    let ghost a = strings_view(args@);
    assert(a =~= tv.drop_first());
    if !(str_eq(verb, "GET") || str_eq(verb, "EXISTS") || str_eq(verb, "TYPE") || str_eq(
        verb,
        "PING",
    )) {
        return None;
    }
    let need = min_args_of(verb);
    if args.len() < need {
        return Some(too_few_message(verb, need));
    }
    Some(read_reply(state, verb, &args, now))
}

} // verus!
