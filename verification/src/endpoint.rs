//! Where a `host:port` leads: splitting it, and choosing among the addresses that its host
//! resolves to. Connections are made over IPv4.
use crate::socks5::host_port;
use crate::text::{
    chars_of, decimal, find_last, law_rsplit_joined, lemma_decimal_without, lemma_last_pos,
    number_up_to, rsplit_once, split_last,
};
use vstd::prelude::*;
use vstd::string::*;

verus! {

/// How long a connection may be silent before it is probed, in seconds.
pub const KEEPALIVE_SECS: u64 = 15;

/// Why a target cannot be connected to.
pub enum DialError {
    /// This target has no port.
    NoPort(String),
    /// The target's port is no port number, for this reason.
    BadPort(String),
    /// This target has no IPv4 address.
    NoIpv4(String),
}

/// The host of a `host:port`; without a colon all of it is the host.
pub open spec fn host_of(target: Seq<char>) -> Seq<char> {
    match rsplit_once(target, ':') {
        Some((host, port)) => host,
        None => target,
    }
}

/// The host of a `host:port`; without a colon all of it is the host.
pub fn target_host(target: &str) -> (host: &str)
    ensures
        host@ == host_of(target@),
{
    let chars = chars_of(target);
    match find_last(chars.as_slice(), ':') {
        Some(i) => {
            proof {
                lemma_last_pos(target@, ':');
            }
            let host = target.substring_char(0, i);
            assert(host@ =~= target@.take(i as int));
            host
        },
        None => target,
    }
}

/// The reason that `str::parse::<u16>` gives where a text is no such number.
pub uninterp spec fn port_error(port: Seq<char>) -> Seq<char>;

/// `str::parse::<u16>`: the number of a text that is one or more decimal digits, with or
/// without a plus sign before them, and not larger than the largest `u16`; for any other
/// text an error, of which only its text is kept.
#[verifier::external_body]
fn std_port(port: &str) -> (r: Result<u16, String>)
    ensures
        match r {
            Ok(n) => number_up_to(port@, u16::MAX as nat) == Some(n as nat),
            Err(reason) => number_up_to(port@, u16::MAX as nat) is None && reason@ == port_error(
                port@,
            ),
        },
{
    port.parse::<u16>().map_err(|e| e.to_string())
}

/// The host and the port that a target names. `literal` is what it names where it is an IP
/// address and a port; any other target is split at its last colon.
pub fn dial_address(target: &str, literal: Option<(String, u16)>) -> (r: Result<
    (String, u16),
    DialError,
>)
    ensures
        match literal {
            Some(l) => r == Ok::<(String, u16), DialError>(l),
            None => match rsplit_once(target@, ':') {
                Some((host, port)) => match number_up_to(port, u16::MAX as nat) {
                    Some(n) => r matches Ok((h, p)) && h@ == host && p == n,
                    None => r matches Err(DialError::BadPort(reason)) && reason@ == port_error(
                        port,
                    ),
                },
                None => r matches Err(DialError::NoPort(t)) && t@ == target@,
            },
        },
{
    match literal {
        Some(l) => Ok(l),
        None => match split_last(target, ':') {
            Some((host, port)) => match std_port(port.as_str()) {
                Ok(n) => Ok((host, n)),
                Err(reason) => Err(DialError::BadPort(reason)),
            },
            None => Err(DialError::NoPort(target.to_string())),
        },
    }
}

/// The first of the addresses of a target that is an IPv4 address; `v4` tells of each
/// whether it is one.
pub fn pick_ipv4(target: &str, v4: &[bool]) -> (r: Result<usize, DialError>)
    ensures
        match r {
            Ok(i) => {
                &&& i < v4@.len()
                &&& v4@[i as int]
                &&& forall|j: int| 0 <= j < i ==> !#[trigger] v4@[j]
            },
            Err(e) => {
                &&& !v4@.contains(true)
                &&& e matches DialError::NoIpv4(t) && t@ == target@
            },
        },
{
    for i in 0..v4.len()
        invariant
            forall|j: int| 0 <= j < i ==> !#[trigger] v4@[j],
    {
        if v4[i] {
            return Ok(i);
        }
    }
    Err(DialError::NoIpv4(target.to_string()))
}

impl DialError {
    /// The error as a text.
    pub fn message(&self) -> (text: String)
        ensures
            text@ == match *self {
                DialError::NoPort(target) => "invalid target: "@ + target@,
                DialError::BadPort(reason) => reason@,
                DialError::NoIpv4(target) => "no IPv4 address for "@ + target@,
            },
    {
        match self {
            DialError::NoPort(target) => {
                let mut text = "invalid target: ".to_string();
                text.append(target.as_str());
                text
            },
            DialError::BadPort(reason) => reason.clone(),
            DialError::NoIpv4(target) => {
                let mut text = "no IPv4 address for ".to_string();
                text.append(target.as_str());
                text
            },
        }
    }
}

/// The addresses that are still to be tried, and the error of the last one tried.
pub struct Attempts {
    order: Vec<usize>,
    tried: usize,
    last_error: String,
}

/// The addresses that are still to be tried, and the error of the last one tried.
pub struct AttemptsView {
    pub rest: Seq<usize>,
    pub last_error: Seq<char>,
}

impl AttemptsView {
    /// What is left when the next address did not answer, for this reason.
    pub open spec fn failed(self, error: Seq<char>) -> AttemptsView {
        AttemptsView { rest: self.rest.drop_first(), last_error: error }
    }

    /// What the attempts lead to when they are made one after the other: the address that
    /// answered, or the error. `outcome` is the reason why an address does not answer, and
    /// nothing where it does.
    pub open spec fn run(self, outcome: spec_fn(usize) -> Option<Seq<char>>) -> Result<
        usize,
        Seq<char>,
    >
        decreases self.rest.len(),
    {
        if self.rest.len() == 0 {
            Err(self.last_error)
        } else {
            match outcome(self.rest[0]) {
                Some(error) => self.failed(error).run(outcome),
                None => Ok(self.rest[0]),
            }
        }
    }
}

impl View for Attempts {
    type V = AttemptsView;

    closed spec fn view(&self) -> AttemptsView {
        AttemptsView { rest: self.order@.skip(self.tried as int), last_error: self.last_error@ }
    }
}

/// The positions of the IPv4 addresses, in order.
pub open spec fn v4_positions(v4: Seq<bool>) -> Seq<usize>
    decreases v4.len(),
{
    if v4.len() == 0 {
        seq![]
    } else if v4.last() {
        v4_positions(v4.drop_last()).push((v4.len() - 1) as usize)
    } else {
        v4_positions(v4.drop_last())
    }
}

/// The positions of the IPv4 addresses; `v4` tells of each address whether it is one.
pub fn ipv4_positions(v4: &[bool]) -> (order: Vec<usize>)
    ensures
        order@ == v4_positions(v4@),
        order@.len() == 0 <==> !v4@.contains(true),
{
    let mut order: Vec<usize> = Vec::new();
    assert(v4@.take(0) =~= seq![]);
    for i in 0..v4.len()
        invariant
            order@ == v4_positions(v4@.take(i as int)),
            order@.len() == 0 <==> !v4@.take(i as int).contains(true),
    {
        let ghost front = v4@.take(i as int);
        let ghost now = v4@.take(i + 1);
        assert(now.drop_last() =~= front);
        assert(now.last() == v4@[i as int]);
        assert(now =~= front.push(v4@[i as int]));
        if v4[i] {
            order.push(i);
            assert(now[i as int] == true);
        }
        proof {
            if front.contains(true) {
                let j = choose|j: int| 0 <= j < front.len() && front[j] == true;
                assert(now[j] == true);
            }
            if now.contains(true) && !v4@[i as int] {
                let j = choose|j: int| 0 <= j < now.len() && now[j] == true;
                assert(front[j] == true);
            }
        }
    }
    assert(v4@.take(v4@.len() as int) =~= v4@);
    order
}

/// Decides how to connect to a target: over its IPv4 addresses, one after the other; a target
/// without one is not connected to. `v4` tells of each of its addresses whether it is an IPv4
/// address.
pub fn plan_dial(target: &str, v4: &[bool]) -> (r: Result<Attempts, DialError>)
    ensures
        match r {
            Ok(attempts) => {
                &&& v4@.contains(true)
                &&& attempts.wf()
                &&& attempts@.rest == v4_positions(v4@)
                &&& attempts@.last_error == "No address available"@
            },
            Err(e) => {
                &&& !v4@.contains(true)
                &&& e matches DialError::NoIpv4(t) && t@ == target@
            },
        },
{
    let order = ipv4_positions(v4);
    if order.len() == 0 {
        return Err(DialError::NoIpv4(target.to_string()));
    }
    let attempts = Attempts { order, tried: 0, last_error: "No address available".to_string() };
    assert(attempts@.rest =~= order@);
    Ok(attempts)
}

impl Attempts {
    /// Not more addresses have been tried than there are.
    pub closed spec fn wf(&self) -> bool {
        self.tried <= self.order@.len()
    }

    /// The address to try next.
    pub fn next(&self) -> (address: Option<usize>)
        requires
            self.wf(),
        ensures
            match address {
                Some(i) => self@.rest.len() > 0 && i == self@.rest[0],
                None => self@.rest.len() == 0,
            },
    {
        if self.tried < self.order.len() {
            Some(self.order[self.tried])
        } else {
            None
        }
    }

    /// The address to try next did not answer, for this reason.
    pub fn failed(&mut self, error: String)
        requires
            old(self).wf(),
            old(self)@.rest.len() > 0,
        ensures
            final(self).wf(),
            final(self)@ == old(self)@.failed(error@),
    {
        assert(self.tried < self.order.len());
        self.tried += 1;
        self.last_error = error;
        assert(self@.rest =~= old(self)@.rest.drop_first());
    }

    /// The error when no address is left.
    pub fn give_up(self) -> (error: String)
        ensures
            error@ == self@.last_error,
    {
        self.last_error
    }
}

/// The error when all attempts together take too long.
pub fn timeout_text() -> (text: String)
    ensures
        text@ == "Connection timeout"@,
{
    "Connection timeout".to_string()
}

/// The attempts go through the IPv4 addresses and no others, in their order and each once.
pub proof fn law_v4_positions(v4: Seq<bool>)
    requires
        v4.len() <= usize::MAX,
    ensures
        forall|k: int|
            0 <= k < v4_positions(v4).len() ==> (#[trigger] v4_positions(v4)[k]) < v4.len()
                && v4[v4_positions(v4)[k] as int],
        forall|j: int, k: int|
            0 <= j < k < v4_positions(v4).len() ==> #[trigger] v4_positions(v4)[j]
                < #[trigger] v4_positions(v4)[k],
        forall|i: int|
            0 <= i < v4.len() && #[trigger] v4[i] ==> v4_positions(v4).contains(i as usize),
    decreases v4.len(),
{
    if v4.len() > 0 {
        let front = v4.drop_last();
        let last = (v4.len() - 1) as usize;
        law_v4_positions(front);
        assert forall|k: int| 0 <= k < v4_positions(v4).len() implies (#[trigger] v4_positions(
            v4,
        )[k]) < v4.len() && v4[v4_positions(v4)[k] as int] by {
            if k < v4_positions(front).len() {
                assert(v4_positions(v4)[k] == v4_positions(front)[k]);
                assert(front[v4_positions(front)[k] as int]);
            }
        }
        assert forall|i: int|
            0 <= i < v4.len() && #[trigger] v4[i] implies v4_positions(v4).contains(i as usize) by {
            if i < front.len() {
                assert(front[i]);
                let k = choose|k: int|
                    0 <= k < v4_positions(front).len() && v4_positions(front)[k] == i as usize;
                assert(v4_positions(v4)[k] == i as usize);
            } else {
                assert(v4_positions(v4)[v4_positions(front).len() as int] == last);
            }
        }
    }
}

/// However many attempts have failed, only IPv4 addresses are left to be tried.
pub proof fn law_only_ipv4_is_tried(v4: Seq<bool>, failed: int)
    requires
        v4.len() <= usize::MAX,
        0 <= failed <= v4_positions(v4).len(),
    ensures
        forall|k: int|
            0 <= k < v4_positions(v4).skip(failed).len() ==> (#[trigger] v4_positions(v4).skip(
                failed,
            )[k]) < v4.len() && v4[v4_positions(v4).skip(failed)[k] as int],
{
    law_v4_positions(v4);
}

/// The attempts lead to the first address that answers, and where none does, to the error of
/// the last one.
pub proof fn law_run(attempts: AttemptsView, outcome: spec_fn(usize) -> Option<Seq<char>>)
    ensures
        match attempts.run(outcome) {
            Ok(address) => exists|k: int|
                {
                    &&& 0 <= k < attempts.rest.len()
                    &&& #[trigger] attempts.rest[k] == address
                    &&& outcome(address) is None
                    &&& forall|j: int|
                        0 <= j < k ==> outcome(#[trigger] attempts.rest[j]) is Some
                },
            Err(error) => {
                &&& forall|j: int|
                    0 <= j < attempts.rest.len() ==> outcome(#[trigger] attempts.rest[j]) is Some
                &&& if attempts.rest.len() == 0 {
                    error == attempts.last_error
                } else {
                    outcome(attempts.rest.last()) == Some(error)
                }
            },
        },
    decreases attempts.rest.len(),
{
    if attempts.rest.len() > 0 {
        let rest = attempts.rest;
        match outcome(rest[0]) {
            Some(error) => {
                let next = attempts.failed(error);
                law_run(next, outcome);
                assert forall|j: int| 1 <= j < rest.len() implies #[trigger] rest[j]
                    == next.rest[j - 1] by {}
                match next.run(outcome) {
                    Ok(address) => {
                        let k = choose|k: int|
                            {
                                &&& 0 <= k < next.rest.len()
                                &&& #[trigger] next.rest[k] == address
                                &&& outcome(address) is None
                                &&& forall|j: int|
                                    0 <= j < k ==> outcome(#[trigger] next.rest[j]) is Some
                            };
                        assert(rest[k + 1] == address);
                    },
                    Err(last) => {
                        if next.rest.len() > 0 {
                            assert(next.rest.last() == rest.last());
                        } else {
                            assert(rest.last() == rest[0]);
                        }
                    },
                }
            },
            None => {
                assert(rest[0] == rest[0]);
            },
        }
    }
}

/// Connecting to a target leads to the first of its IPv4 addresses that answers, and where
/// none does, to the error of the last of them.
pub proof fn law_dial(
    v4: Seq<bool>,
    attempts: AttemptsView,
    outcome: spec_fn(usize) -> Option<Seq<char>>,
)
    requires
        v4.len() <= usize::MAX,
        v4.contains(true),
        attempts.rest == v4_positions(v4),
    ensures
        match attempts.run(outcome) {
            Ok(address) => {
                &&& address < v4.len()
                &&& v4[address as int]
                &&& outcome(address) is None
                &&& forall|i: int|
                    0 <= i < address && #[trigger] v4[i] ==> outcome(i as usize) is Some
            },
            Err(error) => exists|last: int|
                {
                    &&& 0 <= last < v4.len()
                    &&& #[trigger] v4[last]
                    &&& outcome(last as usize) == Some(error)
                    &&& forall|i: int|
                        0 <= i < v4.len() && #[trigger] v4[i] ==> i <= last && outcome(
                            i as usize,
                        ) is Some
                },
        },
{
    let rest = v4_positions(v4);
    law_v4_positions(v4);
    law_run(attempts, outcome);
    let some = choose|i: int| 0 <= i < v4.len() && v4[i] == true;
    assert(v4[some]);
    assert(rest.contains(some as usize));
    match attempts.run(outcome) {
        Ok(address) => {
            let k = choose|k: int|
                {
                    &&& 0 <= k < rest.len()
                    &&& #[trigger] rest[k] == address
                    &&& outcome(address) is None
                    &&& forall|j: int| 0 <= j < k ==> outcome(#[trigger] rest[j]) is Some
                };
            assert forall|i: int| 0 <= i < address && #[trigger] v4[i] implies outcome(
                i as usize,
            ) is Some by {
                let j = choose|j: int| 0 <= j < rest.len() && rest[j] == i as usize;
                if j > k {
                    assert(rest[k] < rest[j]);
                }
            }
        },
        Err(error) => {
            let last = rest[rest.len() - 1] as int;
            assert(v4[last]);
            assert forall|i: int| 0 <= i < v4.len() && #[trigger] v4[i] implies i <= last
                && outcome(i as usize) is Some by {
                let j = choose|j: int| 0 <= j < rest.len() && rest[j] == i as usize;
                if j < rest.len() - 1 {
                    assert(rest[j] < rest[rest.len() - 1]);
                }
            }
        },
    }
}

/// The host of a `host:port` is the one that it was made of, whatever that is.
pub proof fn law_host_round_trip(host: Seq<char>, port: u16)
    ensures
        host_of(host_port(host, port)) == host,
{
    lemma_decimal_without(port as nat, ':');
    law_rsplit_joined(host, ':', decimal(port as nat));
}

/// The host of a text without a colon is the whole text; otherwise what follows the host is a
/// colon, and behind that there is none.
pub proof fn law_host(target: Seq<char>)
    ensures
        !target.contains(':') ==> host_of(target) == target,
        target.contains(':') ==> {
            &&& host_of(target).len() < target.len()
            &&& target.take(host_of(target).len() as int) == host_of(target)
            &&& target[host_of(target).len() as int] == ':'
            &&& forall|i: int|
                host_of(target).len() < i < target.len() ==> #[trigger] target[i] != ':'
        },
        KEEPALIVE_SECS == 15,
{
    crate::text::law_rsplit_once(target, ':');
    lemma_last_pos(target, ':');
    if target.contains(':') {
        assert(target.take(host_of(target).len() as int) =~= host_of(target));
    }
}

/// A failed attempt leaves the addresses behind the one that was tried, and its error.
pub proof fn law_failed(attempts: AttemptsView, error: Seq<char>)
    requires
        attempts.rest.len() > 0,
    ensures
        seq![attempts.rest[0]] + attempts.failed(error).rest == attempts.rest,
        attempts.failed(error).last_error == error,
{
    assert(seq![attempts.rest[0]] + attempts.failed(error).rest =~= attempts.rest);
}

} // verus!
