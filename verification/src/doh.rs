//! Asking DNS-over-HTTPS endpoints for the ECH configuration of a server.
//!
//! The endpoints stand in a queue. Only its head is asked while it answers; where it fails,
//! all are asked at once, and one that answered becomes the new head.
use crate::endpoint::{ipv4_positions, v4_positions};
use crate::text::{
    chars_of, decimal, decimal_of, find_first, first_pos, joined, law_decimal_round_trip,
    law_rsplit_joined, law_splitn_joined, lemma_decimal_without, lemma_first_pos,
    lemma_first_pos_unique, number_up_to, parse_number, rsplit_once, same_text, split_last, splitn,
    starts_with, string_of, texts,
};
use vstd::prelude::*;
use vstd::slice::slice_subrange;
use vstd::string::*;

verus! {

/// How often a query to one endpoint is tried.
pub const ATTEMPTS: usize = 1;

/// What an endpoint answered; `C` is an ECH configuration.
pub enum DohAnswer<C> {
    /// There is a configuration.
    Ech(C),
    /// There is none: a definitive answer.
    NoEch,
    /// The endpoint did not answer.
    Failed,
}

/// What is to be done to find a configuration.
pub enum FetchAction<C> {
    /// Ask this endpoint.
    Ask(String),
    /// Ask all these endpoints at once.
    AskAll(Vec<String>),
    /// Wait for the next answer.
    Wait,
    /// Nothing more; this was found.
    Done(Option<C>),
}

/// The endpoints, the one to be asked first at the head.
pub struct DohQueue {
    urls: Vec<String>,
}

/// The search for a configuration: the endpoints, whether all of them have been asked, and
/// the first of them that then answered that there is none.
pub struct DohFetch {
    endpoints: Vec<String>,
    racing: bool,
    reachable: Option<String>,
}

/// The search with its texts as sequences.
pub struct FetchView {
    pub endpoints: Seq<Seq<char>>,
    pub racing: bool,
    pub reachable: Option<Seq<char>>,
}

impl View for DohQueue {
    type V = Seq<Seq<char>>;

    closed spec fn view(&self) -> Seq<Seq<char>> {
        texts(self.urls@)
    }
}

impl View for DohFetch {
    type V = FetchView;

    closed spec fn view(&self) -> FetchView {
        FetchView {
            endpoints: texts(self.endpoints@),
            racing: self.racing,
            reachable: match self.reachable {
                Some(url) => Some(url@),
                None => None,
            },
        }
    }
}

/// The host, the port and the path of an endpoint's URL. Without a path it is
/// `/dns-query`, without a port it is 443.
pub open spec fn endpoint_of(url: Seq<char>) -> Option<(Seq<char>, u16, Seq<char>)> {
    if "https://"@.is_prefix_of(url) {
        let rest = url.skip(8);
        let slash = first_pos(rest, '/');
        let authority = rest.take(slash);
        let path = if slash < rest.len() {
            rest.skip(slash)
        } else {
            "/dns-query"@
        };
        match rsplit_once(authority, ':') {
            Some((host, port)) => match number_up_to(port, u16::MAX as nat) {
                Some(n) => Some((host, n as u16, path)),
                None => None,
            },
            None => Some((authority, 443, path)),
        }
    } else {
        None
    }
}

/// The host, the port and the path of an endpoint's URL.
pub fn parse_doh_endpoint(url: &str) -> (endpoint: Option<(String, u16, String)>)
    ensures
        match endpoint {
            Some((host, port, path)) => endpoint_of(url@) == Some((host@, port, path@)),
            None => endpoint_of(url@) is None,
        },
{
    if !starts_with(url, "https://") {
        return None;
    }
    proof {
        reveal_strlit("https://");
    }
    let chars = chars_of(url);
    let rest = slice_subrange(chars.as_slice(), 8, chars.len());
    assert(rest@ =~= url@.skip(8));
    let slash: usize = find_first(rest, '/');
    proof {
        lemma_first_pos(rest@, '/');
    }
    let authority = string_of(slice_subrange(rest, 0, slash));
    assert(authority@ =~= rest@.take(slash as int));
    let path = if slash < rest.len() {
        let path = string_of(slice_subrange(rest, slash, rest.len()));
        assert(path@ =~= rest@.skip(slash as int));
        path
    } else {
        "/dns-query".to_string()
    };
    match split_last(authority.as_str(), ':') {
        Some((host, port)) => match parse_number(port.as_str(), u16::MAX as u64) {
            Some(n) => Some((host, n as u16, path)),
            None => None,
        },
        None => Some((authority, 443, path)),
    }
}

/// The name to ask for the configuration of a server: the host itself for the port of
/// HTTPS, and a name that holds the port for any other.
pub open spec fn query_name_of(hostname: Seq<char>, port: u16) -> Seq<char> {
    if port == 443 {
        hostname
    } else {
        "_"@ + decimal(port as nat) + "._https."@ + hostname
    }
}

/// The name to ask for the configuration of a server.
pub fn query_name(hostname: &str, port: u16) -> (name: String)
    ensures
        name@ == query_name_of(hostname@, port),
{
    if port == 443 {
        return hostname.to_string();
    }
    let mut name = "_".to_string();
    name.append(decimal_of(port as u64).as_str());
    name.append("._https.");
    name.append(hostname);
    name
}

/// The host, the port and the path of the endpoint to ask; one whose URL cannot be taken
/// apart counts as failed.
pub fn endpoint_to_ask<C>(url: &str) -> (r: Result<(String, u16, String), DohAnswer<C>>)
    ensures
        match r {
            Ok((host, port, path)) => endpoint_of(url@) == Some((host@, port, path@)),
            Err(a) => endpoint_of(url@) is None && a is Failed,
        },
{
    match parse_doh_endpoint(url) {
        Some(endpoint) => Ok(endpoint),
        None => Err(DohAnswer::Failed),
    }
}

/// The addresses of an endpoint to send the query to, its IPv4 addresses. `v4` tells of each
/// address whether it is one, and is nothing where the host could not be looked up; then, and
/// without an IPv4 address, the endpoint counts as failed.
pub fn addresses_to_ask<C>(v4: Option<&[bool]>) -> (r: Result<Vec<usize>, DohAnswer<C>>)
    ensures
        match r {
            Ok(order) => {
                &&& v4 matches Some(flags)
                &&& flags@.contains(true)
                &&& order@ == v4_positions(flags@)
            },
            Err(a) => {
                &&& v4 matches Some(flags) ==> !flags@.contains(true)
                &&& a is Failed
            },
        },
{
    match v4 {
        Some(flags) => {
            let order = ipv4_positions(flags);
            if order.len() == 0 {
                Err(DohAnswer::Failed)
            } else {
                Ok(order)
            }
        },
        None => Err(DohAnswer::Failed),
    }
}

/// The queue without `url`.
pub open spec fn without(queue: Seq<Seq<char>>, url: Seq<char>) -> Seq<Seq<char>>
    decreases queue.len(),
{
    if queue.len() == 0 {
        seq![]
    } else if queue.last() == url {
        without(queue.drop_last(), url)
    } else {
        without(queue.drop_last(), url).push(queue.last())
    }
}

/// The queue with `url` at its head, and nowhere else; the others keep their order.
pub open spec fn promoted(queue: Seq<Seq<char>>, url: Seq<char>) -> Seq<Seq<char>> {
    seq![url] + without(queue, url)
}

impl DohQueue {
    /// A queue of these endpoints.
    pub fn new(urls: Vec<String>) -> (queue: DohQueue)
        ensures
            queue@ == texts(urls@),
    {
        DohQueue { urls }
    }

    /// The endpoints, in order.
    pub fn endpoints(&self) -> (urls: Vec<String>)
        ensures
            texts(urls@) == self@,
    {
        copied(&self.urls)
    }

    /// Makes `url` the head of the queue.
    pub fn promote(&mut self, url: String)
        ensures
            final(self)@ == promoted(old(self)@, url@),
    {
        let ghost all = self@;
        let mut urls: Vec<String> = Vec::new();
        urls.push(url.clone());
        assert(texts(urls@) =~= seq![url@] + without(all.take(0), url@));
        for i in 0..self.urls.len()
            invariant
                all == texts(self.urls@),
                texts(urls@) == seq![url@] + without(all.take(i as int), url@),
        {
            let ghost before = urls@;
            assert(all.take(i + 1).drop_last() =~= all.take(i as int));
            assert(all.take(i + 1).last() == self.urls@[i as int]@);
            if !same_text(self.urls[i].as_str(), url.as_str()) {
                urls.push(self.urls[i].clone());
                assert(texts(urls@) =~= texts(before).push(all[i as int]));
                assert(texts(urls@) =~= seq![url@] + without(all.take(i + 1), url@));
            }
        }
        assert(all.take(all.len() as int) =~= all);
        self.urls = urls;
    }
}

impl FetchView {
    /// The search after the answer of endpoint `url`, the queue that it leaves, and what is
    /// to be done.
    ///
    /// The answer of the head is final, but where the head failed all endpoints are asked.
    /// Of those, the first with a configuration becomes the head of the queue.
    pub open spec fn answered<C>(
        self,
        queue: Seq<Seq<char>>,
        url: Seq<char>,
        answer: DohAnswer<C>,
        after: FetchView,
        queue_after: Seq<Seq<char>>,
        action: FetchAction<C>,
    ) -> bool {
        &&& after.endpoints == self.endpoints
        &&& if self.racing {
            &&& after.racing
            &&& match answer {
                DohAnswer::Ech(c) => {
                    &&& action == FetchAction::Done(Some(c))
                    &&& queue_after == promoted(queue, url)
                    &&& after.reachable == self.reachable
                },
                DohAnswer::NoEch => {
                    &&& action is Wait
                    &&& queue_after == queue
                    &&& after.reachable == noted(self.reachable, url)
                },
                DohAnswer::Failed => {
                    &&& action is Wait
                    &&& queue_after == queue
                    &&& after.reachable == self.reachable
                },
            }
        } else {
            &&& queue_after == queue
            &&& after.reachable == self.reachable
            &&& match answer {
                DohAnswer::Ech(c) => action == FetchAction::Done(Some(c)) && !after.racing,
                DohAnswer::NoEch => action == FetchAction::Done(None::<C>) && !after.racing,
                DohAnswer::Failed => {
                    &&& action matches FetchAction::AskAll(urls)
                    &&& texts(urls@) == self.endpoints
                    &&& after.racing
                },
            }
        }
    }
}

/// The first endpoint that was noted, once `url` is to be noted too.
pub open spec fn noted(reachable: Option<Seq<char>>, url: Seq<char>) -> Option<Seq<char>> {
    match reachable {
        Some(first) => Some(first),
        None => Some(url),
    }
}

impl DohFetch {
    /// Begins a search: the head of the queue is to be asked; an empty queue finds nothing.
    pub fn start<C>(queue: &DohQueue) -> (r: (DohFetch, FetchAction<C>))
        ensures
            r.0@ == (FetchView { endpoints: queue@, racing: false, reachable: None }),
            if queue@.len() == 0 {
                r.1 == FetchAction::Done(None::<C>)
            } else {
                r.1 matches FetchAction::Ask(url) && url@ == queue@[0]
            },
    {
        let endpoints = queue.endpoints();
        let action = if endpoints.len() == 0 {
            FetchAction::Done(None)
        } else {
            assert(texts(endpoints@)[0] == endpoints@[0]@);
            FetchAction::Ask(endpoints[0].clone())
        };
        (DohFetch { endpoints, racing: false, reachable: None }, action)
    }

    /// Takes the answer of the endpoint `url` and tells what is to be done.
    pub fn on_answer<C>(
        &mut self,
        queue: &mut DohQueue,
        url: String,
        answer: DohAnswer<C>,
    ) -> (action: FetchAction<C>)
        ensures
            old(self)@.answered(old(queue)@, url@, answer, final(self)@, final(queue)@, action),
    {
        if self.racing {
            match answer {
                DohAnswer::Ech(c) => {
                    queue.promote(url);
                    FetchAction::Done(Some(c))
                },
                DohAnswer::NoEch => {
                    if self.reachable.is_none() {
                        self.reachable = Some(url);
                    }
                    FetchAction::Wait
                },
                DohAnswer::Failed => FetchAction::Wait,
            }
        } else {
            match answer {
                DohAnswer::Ech(c) => FetchAction::Done(Some(c)),
                DohAnswer::NoEch => FetchAction::Done(None),
                DohAnswer::Failed => {
                    self.racing = true;
                    FetchAction::AskAll(copied(&self.endpoints))
                },
            }
        }
    }

    /// No more answers will come, and nothing was found: the first endpoint that answered
    /// when all were asked becomes the head of the queue.
    pub fn finish(self, queue: &mut DohQueue)
        ensures
            final(queue)@ == match self@.reachable {
                Some(url) => promoted(old(queue)@, url),
                None => old(queue)@,
            },
    {
        match self.reachable {
            Some(url) => queue.promote(url),
            None => {},
        }
    }
}

fn copied(urls: &Vec<String>) -> (copy: Vec<String>)
    ensures
        texts(copy@) == texts(urls@),
{
    let mut copy: Vec<String> = Vec::new();
    for i in 0..urls.len()
        invariant
            texts(copy@) =~= texts(urls@).take(i as int),
    {
        let ghost before = copy@;
        copy.push(urls[i].clone());
        assert(texts(copy@) =~= texts(before).push(urls@[i as int]@));
    }
    assert(texts(copy@) =~= texts(urls@));
    copy
}

/// The answers of a race, in the order in which they came, taken one by one: what it finds,
/// and the queue that it leaves. `reachable` is what the race has noted before them.
pub open spec fn race_run<C>(
    queue: Seq<Seq<char>>,
    reachable: Option<Seq<char>>,
    answers: Seq<(Seq<char>, DohAnswer<C>)>,
) -> (Option<C>, Seq<Seq<char>>)
    decreases answers.len(),
{
    if answers.len() == 0 {
        match reachable {
            Some(url) => (None, promoted(queue, url)),
            None => (None, queue),
        }
    } else {
        let (url, answer) = answers[0];
        match answer {
            DohAnswer::Ech(c) => (Some(c), promoted(queue, url)),
            DohAnswer::NoEch => race_run(queue, noted(reachable, url), answers.drop_first()),
            DohAnswer::Failed => race_run(queue, reachable, answers.drop_first()),
        }
    }
}

/// A search that has asked all endpoints goes on as [`race_run`] says: an answer that ends
/// it gives what is found and the queue, and any other leaves both to the answers after it.
pub proof fn law_search_follows_race<C>(
    before: FetchView,
    queue: Seq<Seq<char>>,
    answers: Seq<(Seq<char>, DohAnswer<C>)>,
    after: FetchView,
    queue_after: Seq<Seq<char>>,
    action: FetchAction<C>,
)
    requires
        before.racing,
        answers.len() > 0,
        before.answered(queue, answers[0].0, answers[0].1, after, queue_after, action),
    ensures
        race_run(queue, before.reachable, answers) == match action {
            FetchAction::Done(found) => (found, queue_after),
            _ => race_run(queue_after, after.reachable, answers.drop_first()),
        },
{
}

/// Whether `i` is the first of the answers that holds a configuration.
pub open spec fn first_ech<C>(answers: Seq<(Seq<char>, DohAnswer<C>)>, i: int) -> bool {
    &&& 0 <= i < answers.len()
    &&& answers[i].1 is Ech
    &&& forall|j: int| 0 <= j < i ==> (#[trigger] answers[j]).1 !is Ech
}

/// Whether `i` is the first of the answers that says that there is no configuration.
pub open spec fn first_no_ech<C>(answers: Seq<(Seq<char>, DohAnswer<C>)>, i: int) -> bool {
    &&& 0 <= i < answers.len()
    &&& answers[i].1 is NoEch
    &&& forall|j: int| 0 <= j < i ==> (#[trigger] answers[j]).1 !is NoEch
}

/// A race finds the configuration of the first answer that holds one, whatever else was
/// answered before, and its endpoint becomes the head of the queue.
pub proof fn law_race_finds_first<C>(
    queue: Seq<Seq<char>>,
    reachable: Option<Seq<char>>,
    answers: Seq<(Seq<char>, DohAnswer<C>)>,
    i: int,
)
    requires
        first_ech(answers, i),
    ensures
        answers[i].1 matches DohAnswer::Ech(c) && race_run(queue, reachable, answers) == (
            Some(c),
            promoted(queue, answers[i].0),
        ),
    decreases answers.len(),
{
    if i > 0 {
        let rest = answers.drop_first();
        assert(answers[0].1 !is Ech);
        assert(rest[i - 1] == answers[i]);
        let now = match answers[0].1 {
            DohAnswer::NoEch => noted(reachable, answers[0].0),
            _ => reachable,
        };
        law_race_finds_first(queue, now, rest, i - 1);
    }
}

/// A race without a configuration makes the first endpoint that answered the head of the
/// queue.
pub proof fn law_race_promotes_reachable<C>(
    queue: Seq<Seq<char>>,
    answers: Seq<(Seq<char>, DohAnswer<C>)>,
    i: int,
)
    requires
        forall|j: int| 0 <= j < answers.len() ==> (#[trigger] answers[j]).1 !is Ech,
        first_no_ech(answers, i),
    ensures
        race_run(queue, None, answers) == (None::<C>, promoted(queue, answers[i].0)),
    decreases answers.len(),
{
    let rest = answers.drop_first();
    assert(answers[0].1 !is Ech);
    if i == 0 {
        lemma_race_keeps_noted(queue, answers[0].0, rest);
    } else {
        assert(answers[0].1 !is NoEch);
        assert(rest[i - 1] == answers[i]);
        law_race_promotes_reachable(queue, rest, i - 1);
    }
}

proof fn lemma_race_keeps_noted<C>(
    queue: Seq<Seq<char>>,
    noted: Seq<char>,
    answers: Seq<(Seq<char>, DohAnswer<C>)>,
)
    requires
        forall|j: int| 0 <= j < answers.len() ==> (#[trigger] answers[j]).1 !is Ech,
    ensures
        race_run(queue, Some(noted), answers) == (None::<C>, promoted(queue, noted)),
    decreases answers.len(),
{
    if answers.len() > 0 {
        let rest = answers.drop_first();
        assert(answers[0].1 !is Ech);
        lemma_race_keeps_noted(queue, noted, rest);
    }
}

/// A race in which every endpoint failed finds nothing and leaves the queue as it is.
pub proof fn law_failed_race_keeps_queue<C>(
    queue: Seq<Seq<char>>,
    answers: Seq<(Seq<char>, DohAnswer<C>)>,
)
    requires
        forall|j: int| 0 <= j < answers.len() ==> (#[trigger] answers[j]).1 is Failed,
    ensures
        race_run(queue, None, answers) == (None::<C>, queue),
    decreases answers.len(),
{
    if answers.len() > 0 {
        let rest = answers.drop_first();
        assert(answers[0].1 is Failed);
        law_failed_race_keeps_queue(queue, rest);
    }
}

proof fn lemma_without(queue: Seq<Seq<char>>, url: Seq<char>)
    ensures
        forall|u: Seq<char>| #[trigger]
            without(queue, url).contains(u) <==> queue.contains(u) && u != url,
        queue.no_duplicates() ==> without(queue, url).no_duplicates(),
        !queue.contains(url) ==> without(queue, url) == queue,
    decreases queue.len(),
{
    let out = without(queue, url);
    if queue.len() == 0 {
        assert(out =~= queue);
    } else {
        let front = queue.drop_last();
        let rest = without(front, url);
        let last = queue.last();
        lemma_without(front, url);
        assert(queue =~= front.push(last));
        assert(front.push(last)[front.len() as int] == last);
        assert forall|u: Seq<char>| #[trigger] queue.contains(u) <==> front.contains(u) || u
            == last by {
            if queue.contains(u) && u != last {
                let i = choose|i: int| 0 <= i < queue.len() && queue[i] == u;
                assert(front[i] == u);
            }
            if front.contains(u) {
                let i = choose|i: int| 0 <= i < front.len() && front[i] == u;
                assert(queue[i] == u);
            }
        }
        if last != url {
            assert(out[rest.len() as int] == last);
            assert forall|u: Seq<char>| #[trigger] out.contains(u) <==> rest.contains(u) || u
                == last by {
                if out.contains(u) && u != last {
                    let i = choose|i: int| 0 <= i < out.len() && out[i] == u;
                    assert(rest[i] == u);
                }
                if rest.contains(u) {
                    let i = choose|i: int| 0 <= i < rest.len() && rest[i] == u;
                    assert(out[i] == u);
                }
            }
            if queue.no_duplicates() {
                assert forall|i: int| 0 <= i < rest.len() implies #[trigger] rest[i] != last by {
                    assert(rest.contains(rest[i]));
                    assert(front.contains(rest[i]));
                    let j = choose|j: int| 0 <= j < front.len() && front[j] == rest[i];
                    assert(queue[j] == rest[i] && queue[queue.len() - 1] == last);
                }
            }
        }
    }
}

/// Promoting one of the endpoints puts it at the head, and neither adds an endpoint nor
/// loses one.
pub proof fn law_promote_keeps_endpoints(queue: Seq<Seq<char>>, url: Seq<char>)
    requires
        queue.contains(url),
    ensures
        promoted(queue, url)[0] == url,
        promoted(queue, url).to_set() == queue.to_set(),
        queue.no_duplicates() ==> promoted(queue, url).no_duplicates(),
{
    let rest = without(queue, url);
    let all = promoted(queue, url);
    lemma_without(queue, url);
    assert(all[0] == url);
    assert forall|u: Seq<char>| #[trigger] all.contains(u) <==> queue.contains(u) by {
        if all.contains(u) && u != url {
            let i = choose|i: int| 0 <= i < all.len() && all[i] == u;
            assert(rest[i - 1] == u);
            assert(rest.contains(u));
        }
        if queue.contains(u) && u != url {
            assert(rest.contains(u));
            let j = choose|j: int| 0 <= j < rest.len() && rest[j] == u;
            assert(all[j + 1] == u);
        }
    }
    assert(all.to_set() =~= queue.to_set());
    if queue.no_duplicates() {
        assert forall|i: int| 0 <= i < rest.len() implies #[trigger] rest[i] != url by {
            assert(rest.contains(rest[i]));
        }
    }
}

/// Promoting the head again changes nothing.
pub proof fn law_promote_is_idempotent(queue: Seq<Seq<char>>, url: Seq<char>)
    ensures
        promoted(promoted(queue, url), url) == promoted(queue, url),
{
    let rest = without(queue, url);
    lemma_without(queue, url);
    lemma_without_head(rest, url);
    lemma_without(rest, url);
    assert(!rest.contains(url));
}

proof fn lemma_without_head(rest: Seq<Seq<char>>, url: Seq<char>)
    ensures
        without(seq![url] + rest, url) == without(rest, url),
    decreases rest.len(),
{
    let all = seq![url] + rest;
    if rest.len() == 0 {
        assert(all.drop_last() =~= rest);
        assert(all.last() == url);
    } else {
        assert(all.drop_last() =~= seq![url] + rest.drop_last());
        assert(all.last() == rest.last());
        lemma_without_head(rest.drop_last(), url);
    }
}

/// The URL of an endpoint is taken apart into what it was made of, for every host without a
/// slash, every port and every path that begins with a slash.
pub proof fn law_endpoint_round_trip(host: Seq<char>, port: u16, path: Seq<char>)
    requires
        !host.contains('/'),
        path.len() > 0,
        path[0] == '/',
    ensures
        endpoint_of("https://"@ + (host.push(':') + decimal(port as nat)) + path) == Some(
            (host, port, path),
        ),
{
    reveal_strlit("https://");
    let num = decimal(port as nat);
    let authority = host.push(':') + num;
    let url = "https://"@ + authority + path;
    let rest = url.skip(8);
    assert(url.subrange(0, 8) =~= "https://"@);
    assert(rest =~= authority + path);
    lemma_decimal_without(port as nat, '/');
    lemma_decimal_without(port as nat, ':');
    let n = authority.len() as int;
    assert forall|j: int| 0 <= j < n implies #[trigger] rest[j] != '/' by {
        if j < host.len() {
            assert(rest[j] == host[j]);
            assert(host.contains(host[j]));
        } else if j > host.len() {
            assert(rest[j] == num[j - host.len() - 1]);
            assert(num.contains(num[j - host.len() - 1]));
        }
    }
    assert(rest[n] == '/');
    lemma_first_pos_unique(rest, '/', n);
    assert(rest.take(n) =~= authority);
    assert(rest.skip(n) =~= path);
    law_rsplit_joined(host, ':', num);
    law_decimal_round_trip(port as nat);
}

/// A URL without a port is of port 443, and one without a path of the path `/dns-query`.
pub proof fn law_endpoint_defaults(host: Seq<char>, path: Seq<char>, port: u16)
    requires
        !host.contains('/'),
        path.len() > 0,
        path[0] == '/',
    ensures
        !host.contains(':') ==> endpoint_of("https://"@ + host + path) == Some(
            (host, 443u16, path),
        ),
        !host.contains(':') ==> endpoint_of("https://"@ + host) == Some(
            (host, 443u16, "/dns-query"@),
        ),
        endpoint_of("https://"@ + (host.push(':') + decimal(port as nat))) == Some(
            (host, port, "/dns-query"@),
        ),
{
    reveal_strlit("https://");
    lemma_authority(host, path);
    lemma_authority(host, seq![]);
    assert("https://"@ + host + seq![] =~= "https://"@ + host);
    if !host.contains(':') {
        crate::text::law_rsplit_once(host, ':');
    }
    let authority = host.push(':') + decimal(port as nat);
    lemma_decimal_without(port as nat, '/');
    lemma_decimal_without(port as nat, ':');
    assert(!authority.contains('/')) by {
        if authority.contains('/') {
            let j = choose|j: int| 0 <= j < authority.len() && authority[j] == '/';
            if j < host.len() {
                assert(host[j] == '/');
            } else if j > host.len() {
                assert(decimal(port as nat)[j - host.len() - 1] == '/');
            }
        }
    }
    lemma_authority(authority, seq![]);
    assert("https://"@ + authority + seq![] =~= "https://"@ + authority);
    law_rsplit_joined(host, ':', decimal(port as nat));
    law_decimal_round_trip(port as nat);
}

/// The parts of a URL that has an authority without a slash, and behind it nothing or a path.
proof fn lemma_authority(authority: Seq<char>, path: Seq<char>)
    requires
        !authority.contains('/'),
        path.len() > 0 ==> path[0] == '/',
    ensures
        "https://"@.is_prefix_of("https://"@ + authority + path),
        ("https://"@ + authority + path).skip(8) == authority + path,
        first_pos(authority + path, '/') == authority.len(),
        (authority + path).take(authority.len() as int) == authority,
        (authority + path).skip(authority.len() as int) == path,
{
    reveal_strlit("https://");
    let url = "https://"@ + authority + path;
    let rest = authority + path;
    assert(url.subrange(0, 8) =~= "https://"@);
    assert(url.skip(8) =~= rest);
    assert forall|j: int| 0 <= j < authority.len() implies #[trigger] rest[j] != '/' by {
        assert(rest[j] == authority[j]);
        assert(authority.contains(authority[j]));
    }
    lemma_first_pos_unique(rest, '/', authority.len() as int);
    assert(rest.take(authority.len() as int) =~= authority);
    assert(rest.skip(authority.len() as int) =~= path);
}

/// A URL is of no endpoint where it does not begin with `https://`, and where what stands
/// behind the last colon of its authority is no port.
pub proof fn law_no_endpoint(url: Seq<char>, host: Seq<char>, port: Seq<char>, path: Seq<char>)
    requires
        !host.contains('/'),
        !port.contains('/'),
        !port.contains(':'),
        number_up_to(port, 65535) is None,
        path.len() > 0 ==> path[0] == '/',
    ensures
        url.len() < 8 || url.take(8) != "https://"@ ==> endpoint_of(url) is None,
        endpoint_of("https://"@ + (host.push(':') + port) + path) is None,
{
    reveal_strlit("https://");
    if url.len() >= 8 {
        assert(url.take(8) =~= url.subrange(0, 8));
    }
    let authority = host.push(':') + port;
    assert(!authority.contains('/')) by {
        if authority.contains('/') {
            let j = choose|j: int| 0 <= j < authority.len() && authority[j] == '/';
            if j < host.len() {
                assert(host[j] == '/');
            } else if j > host.len() {
                assert(port[j - host.len() - 1] == '/');
            }
        }
    }
    lemma_authority(authority, path);
    law_rsplit_joined(host, ':', port);
}

/// The name that is asked for is the host itself for port 443; for any other port it is the
/// host with the labels of the port and of HTTPS before it.
pub proof fn law_query_name(hostname: Seq<char>, port: u16)
    ensures
        port == 443 ==> query_name_of(hostname, port) == hostname,
        port != 443 ==> splitn(query_name_of(hostname, port), 3, '.') == seq![
            seq!['_'] + decimal(port as nat),
            "_https"@,
            hostname,
        ],
{
    reveal_strlit("_");
    reveal_strlit("._https.");
    reveal_strlit("_https");
    if port != 443 {
        let first = seq!['_'] + decimal(port as nat);
        let pieces = seq![first, "_https"@, hostname];
        lemma_decimal_without(port as nat, '.');
        assert forall|j: int| 0 <= j < first.len() implies #[trigger] first[j] != '.' by {
            if j > 0 {
                assert(first[j] == decimal(port as nat)[j - 1]);
            }
        }
        assert(!"_https"@.contains('.'));
        assert(pieces.drop_first() =~= seq!["_https"@, hostname]);
        assert(pieces.drop_first().drop_first() =~= seq![hostname]);
        assert(joined(seq![hostname], '.') == hostname);
        assert(joined(seq!["_https"@, hostname], '.') == "_https"@.push('.') + hostname);
        assert(query_name_of(hostname, port) =~= joined(pieces, '.'));
        law_splitn_joined(pieces, 3, '.');
    }
}

/// Taking an endpoint out of a queue takes it out of each part of the queue: the others stay,
/// in their order.
pub proof fn law_without(
    first: Seq<Seq<char>>,
    second: Seq<Seq<char>>,
    u: Seq<char>,
    url: Seq<char>,
)
    ensures
        without(seq![], url) == Seq::<Seq<char>>::empty(),
        without(seq![u], url) == if u == url {
            Seq::<Seq<char>>::empty()
        } else {
            seq![u]
        },
        without(first + second, url) == without(first, url) + without(second, url),
    decreases second.len(),
{
    let none = Seq::<Seq<char>>::empty();
    assert(seq![u].drop_last() =~= none);
    assert(without(none, url) =~= none);
    if u != url {
        assert(without(seq![u], url) =~= seq![u]);
    }
    if second.len() == 0 {
        assert(first + second =~= first);
        assert(without(first, url) + without(second, url) =~= without(first, url));
    } else {
        assert((first + second).drop_last() =~= first + second.drop_last());
        assert((first + second).last() == second.last());
        law_without(first, second.drop_last(), u, url);
        assert(without(first + second, url) =~= without(first, url) + without(second, url));
    }
}

/// A promoted endpoint stands before the others.
pub proof fn law_promoted(queue: Seq<Seq<char>>, url: Seq<char>)
    ensures
        promoted(queue, url)[0] == url,
        promoted(queue, url).skip(1) == without(queue, url),
        !promoted(queue, url).skip(1).contains(url),
{
    lemma_without(queue, url);
    assert(promoted(queue, url).skip(1) =~= without(queue, url));
}

/// While only the head has been asked, its answer is final, but where it failed: then all
/// endpoints are asked. The queue stays as it is either way.
pub proof fn law_head_answer<C>(
    before: FetchView,
    queue: Seq<Seq<char>>,
    url: Seq<char>,
    answer: DohAnswer<C>,
    after: FetchView,
    queue_after: Seq<Seq<char>>,
    action: FetchAction<C>,
)
    requires
        !before.racing,
        before.answered(queue, url, answer, after, queue_after, action),
    ensures
        queue_after == queue,
        answer matches DohAnswer::Ech(c) ==> action == FetchAction::Done(Some(c)),
        answer is NoEch ==> action == FetchAction::Done(None::<C>),
        answer is Failed ==> {
            &&& action matches FetchAction::AskAll(urls)
            &&& texts(urls@) == before.endpoints
            &&& after.racing
            &&& after.endpoints == before.endpoints
            &&& after.reachable == before.reachable
        },
{
}

/// Once all have been asked, a configuration is final, and its endpoint is promoted; any other
/// answer changes no queue, and the first that says no is noted.
pub proof fn law_race_answer<C>(
    before: FetchView,
    queue: Seq<Seq<char>>,
    url: Seq<char>,
    answer: DohAnswer<C>,
    after: FetchView,
    queue_after: Seq<Seq<char>>,
    action: FetchAction<C>,
)
    requires
        before.racing,
        before.answered(queue, url, answer, after, queue_after, action),
    ensures
        after.racing,
        answer matches DohAnswer::Ech(c) ==> {
            &&& action == FetchAction::Done(Some(c))
            &&& queue_after.len() > 0
            &&& queue_after[0] == url
            &&& queue_after.skip(1) == without(queue, url)
        },
        !(answer is Ech) ==> action is Wait && queue_after == queue,
        answer is NoEch && before.reachable is None ==> after.reachable == Some(url),
        answer is NoEch && before.reachable is Some ==> after.reachable == before.reachable,
        answer is Failed ==> after.reachable == before.reachable,
        after.endpoints == before.endpoints,
        ATTEMPTS == 1,
{
    law_promoted(queue, url);
}

/// A URL with a port, in whatever notation, is of that port; what follows the authority is the
/// path, and `/dns-query` where nothing follows.
pub proof fn law_endpoint_port(host: Seq<char>, port: Seq<char>, n: nat, path: Seq<char>)
    requires
        !host.contains('/'),
        !port.contains('/'),
        !port.contains(':'),
        number_up_to(port, 65535) == Some(n),
        path.len() > 0 ==> path[0] == '/',
    ensures
        endpoint_of("https://"@ + (host.push(':') + port) + path) == Some(
            (
                host,
                n as u16,
                if path.len() > 0 {
                    path
                } else {
                    "/dns-query"@
                },
            ),
        ),
{
    let authority = host.push(':') + port;
    assert(!authority.contains('/')) by {
        if authority.contains('/') {
            let j = choose|j: int| 0 <= j < authority.len() && authority[j] == '/';
            if j < host.len() {
                assert(host[j] == '/');
            } else if j > host.len() {
                assert(port[j - host.len() - 1] == '/');
            }
        }
    }
    lemma_authority(authority, path);
    law_rsplit_joined(host, ':', port);
}

} // verus!
