use vstd::prelude::*;
use crate::command::{respond, respond_line, verb_spellings};
use crate::parse::{classify, render, tokens_of, ttl_of};
use crate::state::{expiry, live, unexpired, Stored};

verus! {

/// A value written with a positive time-to-live reads back, rendered with
/// its type, at any instant before it expires.
pub proof fn set_then_get(
    db: Map<Seq<char>, Stored>,
    k: Seq<char>,
    v: Seq<char>,
    t: Seq<char>,
    now: int,
    later: int,
)
    requires
        ttl_of(t) > 0,
        now <= later < expiry(now, ttl_of(t) as int),
    ensures
        respond(db, "SET"@, seq![k, v, t], now).1 == "OK\r\n"@,
        respond(respond(db, "SET"@, seq![k, v, t], now).0, "GET"@, seq![k], later).1 == render(
            classify(v),
        ) + "\r\n"@,
{
    verb_spellings();
    let db2 = respond(db, "SET"@, seq![k, v, t], now).0;
    assert(db2.contains_key(k));
    assert(live(db2, k, later) == Some(classify(v)));
}

/// Once its time-to-live has passed, a written key reads as absent, is
/// reported as not existing, and is gone from the store after any sweep.
pub proof fn set_then_expire(
    db: Map<Seq<char>, Stored>,
    k: Seq<char>,
    v: Seq<char>,
    t: Seq<char>,
    now: int,
    later: int,
)
    requires
        expiry(now, ttl_of(t) as int) <= later,
    ensures
        ({
            let db2 = respond(db, "SET"@, seq![k, v, t], now).0;
            &&& respond(db2, "GET"@, seq![k], later) == (db2, "Nil\r\n"@)
            &&& respond(db2, "EXISTS"@, seq![k], later) == (db2, "NO\r\n"@)
            &&& !unexpired(db2, later).contains_key(k)
        }),
{
    verb_spellings();
}

/// Of two successive writes to one key, a read before the second expires
/// sees the second value only.
pub proof fn set_overwrites(
    db: Map<Seq<char>, Stored>,
    k: Seq<char>,
    v1: Seq<char>,
    v2: Seq<char>,
    t1: Seq<char>,
    t2: Seq<char>,
    now1: int,
    now2: int,
    later: int,
)
    requires
        now2 <= later < expiry(now2, ttl_of(t2) as int),
    ensures
        ({
            let db2 = respond(db, "SET"@, seq![k, v1, t1], now1).0;
            let db3 = respond(db2, "SET"@, seq![k, v2, t2], now2).0;
            &&& db3[k].0 == classify(v2)
            &&& respond(db3, "GET"@, seq![k], later).1 == render(classify(v2)) + "\r\n"@
        }),
{
    verb_spellings();
}

/// Renaming a live key to another key leaves the source absent and the
/// target holding the source's value, in one step.
pub proof fn rename_moves(
    db: Map<Seq<char>, Stored>,
    from: Seq<char>,
    to: Seq<char>,
    now: int,
)
    requires
        live(db, from, now) is Some,
        from != to,
    ensures
        ({
            let (db2, r) = respond(db, "RENAME"@, seq![from, to], now);
            &&& r == "OK\r\n"@
            &&& !db2.contains_key(from)
            &&& respond(db2, "EXISTS"@, seq![from], now) == (db2, "NO\r\n"@)
            &&& respond(db2, "GET"@, seq![to], now).1 == render(db[from].0) + "\r\n"@
        }),
{
    verb_spellings();
    let db2 = respond(db, "RENAME"@, seq![from, to], now).0;
    assert(db2.contains_key(to));
    assert(live(db2, to, now) == Some(db[from].0));
}

/// Renaming a key that holds no live value is refused and changes nothing.
pub proof fn rename_missing(db: Map<Seq<char>, Stored>, from: Seq<char>, to: Seq<char>, now: int)
    requires
        live(db, from, now) is None,
    ensures
        respond(db, "RENAME"@, seq![from, to], now) == (db, "Error: Key does not exist\r\n"@),
{
    verb_spellings();
}

/// A verb outside the protocol is answered `Unknown command` and changes nothing.
pub proof fn unknown_verb(db: Map<Seq<char>, Stored>, verb: Seq<char>, args: Seq<Seq<char>>, now: int)
    requires
        verb != "SET"@,
        verb != "GET"@,
        verb != "UPDATE"@,
        verb != "DEL"@,
        verb != "DELETE"@,
        verb != "EXISTS"@,
        verb != "RENAME"@,
        verb != "TYPE"@,
        verb != "CLEARALL"@,
        verb != "PING"@,
    ensures
        respond(db, verb, args, now) == (db, "Unknown command\r\n"@),
{
}

/// A line without tokens is answered `Error: Empty command` and changes nothing.
pub proof fn empty_line(db: Map<Seq<char>, Stored>, line: Seq<char>, now: int)
    requires
        tokens_of(line).len() == 0,
    ensures
        respond_line(db, line, now) == (db, "Error: Empty command\r\n"@),
{
}

/// A sweep removes nothing that a reader could still see: at the sweep's
/// instant and at any later one, every key reads as it did before.
pub proof fn sweep_is_invisible(db: Map<Seq<char>, Stored>, k: Seq<char>, now: int, later: int)
    requires
        now <= later,
    ensures
        live(unexpired(db, now), k, later) == live(db, k, later),
{
}

} // verus!
