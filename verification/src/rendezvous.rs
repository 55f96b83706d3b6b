//! How a dialer finds a listener: through a key in a Redis store.

use vstd::prelude::*;

verus! {

/// How many seconds a dialer waits for a listener.
pub const WAIT_SECS: u64 = 60;

/// The key under which the listener of a test run publishes its address.
pub open spec fn key_text(test_key: Seq<char>) -> Seq<char> {
    test_key + "_listener_multiaddr"@
}

/// What a reply of the store tells: an empty value is as good as none.
pub open spec fn answer(reply: Option<Seq<char>>) -> Option<Seq<char>> {
    match reply {
        Some(v) if v.len() > 0 => Some(v),
        _ => None,
    }
}

/// The characters of a string that may be missing.
pub open spec fn optional_text(s: Option<String>) -> Option<Seq<char>> {
    match s {
        Some(v) => Some(v@),
        None => None,
    }
}

/// What a dialer that asks at most `tries` times, once a second, makes of the
/// replies: the first that tells something, or nothing.
pub open spec fn first_answer(replies: Seq<Option<Seq<char>>>, tries: nat) -> Option<Seq<char>>
    decreases tries,
{
    if tries == 0 || replies.len() == 0 {
        None
    } else if answer(replies[0]) is Some {
        answer(replies[0])
    } else {
        first_answer(replies.drop_first(), (tries - 1) as nat)
    }
}

/// What a reply tells, and how often the store may be asked after it.
pub open spec fn poll_step(left: nat, reply: Option<Seq<char>>) -> (Option<Seq<char>>, nat) {
    (answer(reply), (left - 1) as nat)
}

/// A dialer's wait for a key.
pub struct KeyPoll {
    left: u64,
}

impl View for KeyPoll {
    type V = nat;

    /// How often the store may still be asked.
    closed spec fn view(&self) -> nat {
        self.left as nat
    }
}

impl KeyPoll {
    /// A wait that asks `timeout_secs` times.
    pub fn new(timeout_secs: u64) -> (r: Self)
        ensures
            r@ == timeout_secs,
    {
        KeyPoll { left: timeout_secs }
    }

    /// Whether to ask the store; if not, the wait is over without an answer.
    pub fn asks(&self) -> (r: bool)
        ensures
            r == (self@ > 0),
    {
        self.left > 0
    }

    /// Takes in a reply. Without an answer the next question comes a second later.
    pub fn on_reply(&mut self, reply: Option<String>) -> (r: Option<String>)
        requires
            old(self)@ > 0,
        ensures
            (optional_text(r), final(self)@) == poll_step(old(self)@, optional_text(reply)),
    {
        self.left = self.left - 1;
        match reply {
            Some(v) => if v.as_str().is_empty() {
                None
            } else {
                Some(v)
            },
            None => None,
        }
    }
}

/// An address that is published in time is found: as long as an answer comes with
/// one of the questions that are asked, it is the first such answer, and otherwise
/// there is none.
pub proof fn law_published_in_time_is_found(replies: Seq<Option<Seq<char>>>, tries: nat, k: int)
    requires
        0 <= k < replies.len(),
        forall|i: int| 0 <= i < k ==> answer(#[trigger] replies[i]) is None,
        answer(replies[k]) is Some,
    ensures
        first_answer(replies, tries) == (if k < tries {
            answer(replies[k])
        } else {
            None
        }),
    decreases tries,
{
    if tries > 0 && k > 0 {
        let rest = replies.drop_first();
        assert(answer(replies[0]) is None);
        assert forall|i: int| 0 <= i < k - 1 implies answer(#[trigger] rest[i]) is None by {
            assert(rest[i] == replies[i + 1]);
        }
        law_published_in_time_is_found(rest, (tries - 1) as nat, k - 1);
    }
}

/// A wait from its start to its end: the store is asked as long as it may be and has told
/// nothing. `polls` is the wait before each reply and after the last.
pub open spec fn is_wait(polls: Seq<KeyPoll>, replies: Seq<Option<Seq<char>>>) -> bool {
    &&& polls.len() == replies.len() + 1
    &&& forall|i: int|
        0 <= i < replies.len() ==> {
            &&& (#[trigger] polls[i])@ > 0
            &&& polls[i + 1]@ == poll_step(polls[i]@, replies[i]).1
            &&& i < replies.len() - 1 ==> poll_step(polls[i]@, replies[i]).0 is None
        }
    &&& polls.last()@ == 0 || replies.len() > 0 && poll_step(
        polls[replies.len() - 1]@,
        replies.last(),
    ).0 is Some
}

/// What a wait gives, from its start to its end, is the first answer among as many
/// replies as the wait may ask for, whatever the store would have told later.
pub proof fn law_wait_gives_the_first_answer(
    polls: Seq<KeyPoll>,
    replies: Seq<Option<Seq<char>>>,
    later: Seq<Option<Seq<char>>>,
)
    requires
        is_wait(polls, replies),
    ensures
        first_answer(replies + later, polls[0]@) == (if replies.len() == 0 {
            None
        } else {
            poll_step(polls[replies.len() - 1]@, replies.last()).0
        }),
    decreases replies.len(),
{
    let all = replies + later;
    if replies.len() > 0 {
        assert(polls[0]@ > 0);
        assert(all[0] == replies[0]);
        if replies.len() == 1 {
            if answer(replies[0]) is None {
                assert(polls[1]@ == 0);
                assert(first_answer(all.drop_first(), 0) is None);
            }
        } else {
            let (rest, next) = (replies.drop_first(), polls.drop_first());
            assert(rest + later =~= all.drop_first());
            assert(is_wait(next, rest)) by {
                assert forall|i: int| 0 <= i < rest.len() implies {
                    &&& (#[trigger] next[i])@ > 0
                    &&& next[i + 1]@ == poll_step(next[i]@, rest[i]).1
                    &&& i < rest.len() - 1 ==> poll_step(next[i]@, rest[i]).0 is None
                } by {
                    assert(next[i] == polls[i + 1]);
                }
            }
            law_wait_gives_the_first_answer(next, rest, later);
            assert(rest.last() == replies.last());
            assert(answer(replies[0]) is None);
            assert(next[0]@ == polls[0]@ - 1);
        }
    }
}

/// The key under which the listener of a test run publishes its address.
pub fn listener_key(test_key: &str) -> (r: String)
    ensures
        r@ == key_text(test_key@),
{
    let mut r = String::from_str(test_key);
    r.append("_listener_multiaddr");
    r
}

/// Where the store is reached.
pub fn redis_url(addr: &str) -> (r: String)
    ensures
        r@ == "redis://"@ + addr@,
{
    let mut r = String::from_str("redis://");
    r.append(addr);
    r
}

/// What to tell the user when no listener was found.
pub fn timeout_message(key: &str) -> (r: String)
    ensures
        r@ == "timeout waiting for Redis key: "@ + key@,
{
    let mut r = String::from_str("timeout waiting for Redis key: ");
    r.append(key);
    r
}

/// A reply that holds anything is the answer, just as it is; an empty one and none tell
/// nothing. Every reply uses up one question.
pub proof fn law_what_a_reply_tells(v: Seq<char>, left: nat)
    requires
        left > 0,
    ensures
        v.len() > 0 ==> answer(Some(v)) == Some(v),
        v.len() == 0 ==> answer(Some(v)) is None,
        answer(None) is None,
        poll_step(left, Some(v)).1 + 1 == left,
        poll_step(left, None).1 + 1 == left,
        v.len() > 0 ==> poll_step(left, Some(v)).0 == Some(v),
        v.len() == 0 ==> poll_step(left, Some(v)).0 is None,
        poll_step(left, None).0 is None,
{
}

/// Different test runs have different keys, and every key begins with the name of its run.
pub proof fn law_keys_of_test_runs(a: Seq<char>, b: Seq<char>)
    ensures
        key_text(a) == a + "_listener_multiaddr"@,
        key_text(a) == key_text(b) ==> a == b,
{
    if key_text(a) == key_text(b) {
        assert(a =~= key_text(a).take(key_text(a).len() - "_listener_multiaddr"@.len()));
        assert(b =~= key_text(b).take(key_text(b).len() - "_listener_multiaddr"@.len()));
    }
}

/// The characters of a string that may be missing.
pub proof fn law_optional_text(s: String)
    ensures
        optional_text(Some(s)) == Some(s@),
        optional_text(None) is None,
{
}

} // verus!
