//! The ECH configurations that a server publishes in its DNS records.
use crate::doh::DohAnswer;
use rustls::client::EchConfig;
use vstd::prelude::*;
use vstd::slice::slice_to_vec;

verus! {

/// A parameter of an HTTPS record.
pub struct SvcParam {
    /// Whether it stands under the key for ECH configurations.
    pub ech_key: bool,
    /// The list of ECH configurations that is its value, if its value is one.
    pub ech_list: Option<Vec<u8>>,
}

/// A record of a DNS answer.
pub enum Record {
    /// An HTTPS record, with its parameters.
    Https(Vec<SvcParam>),
    Other,
}

/// What came of a DNS query.
pub enum Lookup {
    /// These records.
    Found(Vec<Record>),
    /// There is no such record: a definitive answer.
    NoRecords,
    Failed,
}

/// A list of ECH configurations with none that can be used.
pub struct InvalidEch;

/// What the client end sends to the server about ECH.
pub enum EchPlan<C> {
    /// It uses this configuration.
    Use(C),
    /// It sends a placeholder.
    Grease,
}

/// `rustls::client::EchConfig`: an ECH configuration that can be used.
#[verifier::external_type_specification]
#[verifier::external_body]
pub struct ExEchConfig(rustls::client::EchConfig);

/// What `rustls::client::EchConfig::new` makes of a list of ECH configurations, with all
/// HPKE suites of aws-lc-rs: nothing where the list is malformed or holds none that can be
/// used.
pub uninterp spec fn usable_ech(list: Seq<u8>) -> Option<EchConfig>;

/// `rustls::client::EchConfig::new` on a list of ECH configurations, with
/// `rustls::crypto::aws_lc_rs::hpke::ALL_SUPPORTED_SUITES`: the first configuration of the
/// list that can be used with one of the suites, and an error, of which only that it came is
/// kept, where there is none or the list is malformed.
#[verifier::external_body]
fn new_ech_config(list: Vec<u8>) -> (config: Option<EchConfig>)
    ensures
        config == usable_ech(list@),
{
    let list = rustls::pki_types::EchConfigListBytes::from(list);
    EchConfig::new(list, rustls::crypto::aws_lc_rs::hpke::ALL_SUPPORTED_SUITES).ok()
}

/// The lists of ECH configurations among the parameters of a record.
pub open spec fn param_lists(params: Seq<SvcParam>) -> Seq<Seq<u8>>
    decreases params.len(),
{
    if params.len() == 0 {
        seq![]
    } else {
        let front = param_lists(params.drop_last());
        match params.last().ech_list {
            Some(list) => if params.last().ech_key {
                front.push(list@)
            } else {
                front
            },
            None => front,
        }
    }
}

/// The lists of ECH configurations in the HTTPS records of an answer, in order.
pub open spec fn offered_lists(records: Seq<Record>) -> Seq<Seq<u8>>
    decreases records.len(),
{
    if records.len() == 0 {
        seq![]
    } else {
        let front = offered_lists(records.drop_last());
        match records.last() {
            Record::Https(params) => front + param_lists(params@),
            Record::Other => front,
        }
    }
}

/// The first configuration among these results.
pub open spec fn first_some<C>(results: Seq<Option<C>>) -> Option<C>
    decreases results.len(),
{
    if results.len() == 0 {
        None
    } else if results[0] is Some {
        results[0]
    } else {
        first_some(results.drop_first())
    }
}

/// What is answered when these results have come of the offered lists.
pub open spec fn answer_of<C>(results: Seq<Option<C>>) -> DohAnswer<C> {
    match first_some(results) {
        Some(config) => DohAnswer::Ech(config),
        None => DohAnswer::NoEch,
    }
}

/// What can be used of each of these lists.
pub open spec fn usable_of(lists: Seq<Seq<u8>>) -> Seq<Option<EchConfig>> {
    lists.map_values(|list: Seq<u8>| usable_ech(list))
}

/// The contents of these lists.
pub open spec fn list_views(lists: Seq<Vec<u8>>) -> Seq<Seq<u8>> {
    lists.map_values(|list: Vec<u8>| list@)
}

/// The lists of ECH configurations in the HTTPS records of an answer, in order.
pub fn ech_lists(records: &[Record]) -> (lists: Vec<Vec<u8>>)
    ensures
        list_views(lists@) == offered_lists(records@),
{
    let mut lists: Vec<Vec<u8>> = Vec::new();
    assert(list_views(lists@) =~= offered_lists(records@.take(0)));
    for i in 0..records.len()
        invariant
            list_views(lists@) == offered_lists(records@.take(i as int)),
    {
        let ghost front = list_views(lists@);
        assert(records@.take(i + 1).drop_last() =~= records@.take(i as int));
        assert(records@.take(i + 1).last() == records@[i as int]);
        match &records[i] {
            Record::Https(params) => {
                assert(front =~= front + param_lists(params@.take(0)));
                for j in 0..params.len()
                    invariant
                        list_views(lists@) == front + param_lists(params@.take(j as int)),
                {
                    let ghost before = lists@;
                    assert(params@.take(j + 1).drop_last() =~= params@.take(j as int));
                    assert(params@.take(j + 1).last() == params@[j as int]);
                    match &params[j].ech_list {
                        Some(list) => if params[j].ech_key {
                            let copy = slice_to_vec(list.as_slice());
                            lists.push(copy);
                            assert(list_views(lists@) =~= list_views(before).push(list@));
                        },
                        None => {},
                    }
                    assert(list_views(lists@) =~= front + param_lists(params@.take(j + 1)));
                }
                assert(params@.take(params@.len() as int) =~= params@);
            },
            Record::Other => {},
        }
    }
    assert(records@.take(records@.len() as int) =~= records@);
    lists
}

/// What is answered when these results have come of the offered lists: the first
/// configuration that can be used, and a definitive no where there is none.
pub fn choose_ech<C>(results: Vec<Option<C>>) -> (answer: DohAnswer<C>)
    ensures
        answer == answer_of(results@),
{
    let mut rest = results;
    while rest.len() > 0
        invariant
            first_some(rest@) == first_some(results@),
        decreases rest@.len(),
    {
        let ghost now = rest@;
        let first = rest.remove(0);
        assert(rest@ =~= now.drop_first());
        if let Some(config) = first {
            return DohAnswer::Ech(config);
        }
    }
    DohAnswer::NoEch
}

/// What an endpoint answered, by the records that it sent.
pub fn extract_ech(records: &[Record]) -> (answer: DohAnswer<EchConfig>)
    ensures
        answer == answer_of(usable_of(offered_lists(records@))),
{
    let lists = ech_lists(records);
    let ghost views = offered_lists(records@);
    let mut results: Vec<Option<EchConfig>> = Vec::new();
    for i in 0..lists.len()
        invariant
            views == list_views(lists@),
            results@ =~= usable_of(views).take(i as int),
    {
        assert(views[i as int] == lists@[i as int]@);
        results.push(new_ech_config(slice_to_vec(lists[i].as_slice())));
    }
    assert(results@ =~= usable_of(views));
    choose_ech(results)
}

/// What an endpoint answered, by what came of the query: that there is no such record is a
/// definitive answer too.
pub fn endpoint_answer(lookup: &Lookup) -> (answer: DohAnswer<EchConfig>)
    ensures
        match *lookup {
            Lookup::Found(records) => answer == answer_of(usable_of(offered_lists(records@))),
            Lookup::NoRecords => answer is NoEch,
            Lookup::Failed => answer is Failed,
        },
{
    match lookup {
        Lookup::Found(records) => extract_ech(records.as_slice()),
        Lookup::NoRecords => DohAnswer::NoEch,
        Lookup::Failed => DohAnswer::Failed,
    }
}

/// The configuration to use of those in a file.
pub fn ech_from_file(bytes: Vec<u8>) -> (r: Result<EchConfig, InvalidEch>)
    ensures
        match r {
            Ok(config) => usable_ech(bytes@) == Some(config),
            Err(_) => usable_ech(bytes@) is None,
        },
{
    match new_ech_config(bytes) {
        Some(config) => Ok(config),
        None => Err(InvalidEch),
    }
}

/// What follows the search for a configuration: without one a placeholder is sent.
pub fn after_fetch<C>(found: Option<C>) -> (plan: EchPlan<C>)
    ensures
        plan == match found {
            Some(config) => EchPlan::Use(config),
            None => EchPlan::Grease,
        },
{
    match found {
        Some(config) => EchPlan::Use(config),
        None => EchPlan::Grease,
    }
}

/// Records without a list of ECH configurations give a definitive no.
pub proof fn law_nothing_offered(records: Seq<Record>)
    requires
        offered_lists(records).len() == 0,
    ensures
        answer_of(usable_of(offered_lists(records))) is NoEch,
{
}

proof fn lemma_lists_join(first: Seq<Record>, second: Seq<Record>)
    ensures
        offered_lists(first + second) == offered_lists(first) + offered_lists(second),
    decreases second.len(),
{
    if second.len() == 0 {
        assert(first + second =~= first);
        assert(offered_lists(first) + offered_lists(second) =~= offered_lists(first));
    } else {
        lemma_lists_join(first, second.drop_last());
        assert((first + second).drop_last() =~= first + second.drop_last());
        assert((first + second).last() == second.last());
        assert(offered_lists(first + second) =~= offered_lists(first) + offered_lists(second));
    }
}

proof fn lemma_first_some_joined<C>(first: Seq<Option<C>>, second: Seq<Option<C>>)
    ensures
        first_some(first + second) == match first_some(first) {
            Some(config) => Some(config),
            None => first_some(second),
        },
    decreases first.len(),
{
    if first.len() == 0 {
        assert(first + second =~= second);
    } else {
        assert((first + second)[0] == first[0]);
        assert((first + second).drop_first() =~= first.drop_first() + second);
        lemma_first_some_joined(first.drop_first(), second);
    }
}

/// The first configuration that can be used decides: where some records give one, no later
/// record changes the answer, and where they give none, the later records alone decide.
pub proof fn law_first_usable_decides(first: Seq<Record>, second: Seq<Record>)
    ensures
        ({
            let one = answer_of(usable_of(offered_lists(first)));
            let two = answer_of(usable_of(offered_lists(second)));
            answer_of(usable_of(offered_lists(first + second))) == if one is Ech {
                one
            } else {
                two
            }
        }),
{
    lemma_lists_join(first, second);
    assert(usable_of(offered_lists(first + second)) =~= usable_of(offered_lists(first))
        + usable_of(offered_lists(second)));
    lemma_first_some_joined(usable_of(offered_lists(first)), usable_of(offered_lists(second)));
}

/// The lists among the parameters of a record are those of its parts, one after the other; of
/// one parameter it is its list, where it has one and stands under the key for ECH.
pub proof fn law_param_lists(first: Seq<SvcParam>, second: Seq<SvcParam>, param: SvcParam)
    ensures
        param_lists(first + second) == param_lists(first) + param_lists(second),
        param_lists(seq![param]) == if param.ech_key && param.ech_list is Some {
            seq![param.ech_list->0@]
        } else {
            Seq::<Seq<u8>>::empty()
        },
        param_lists(seq![]) == Seq::<Seq<u8>>::empty(),
    decreases second.len(),
{
    let none = Seq::<SvcParam>::empty();
    assert(seq![param].drop_last() =~= none);
    assert(param_lists(none) =~= seq![]);
    assert(param_lists(seq![param]) =~= if param.ech_key && param.ech_list is Some {
        seq![param.ech_list->0@]
    } else {
        Seq::<Seq<u8>>::empty()
    });
    if second.len() == 0 {
        assert(first + second =~= first);
        assert(param_lists(first) + param_lists(second) =~= param_lists(first));
    } else {
        law_param_lists(first, second.drop_last(), param);
        assert((first + second).drop_last() =~= first + second.drop_last());
        assert((first + second).last() == second.last());
        assert(param_lists(first + second) =~= param_lists(first) + param_lists(second));
    }
}

/// The lists of an answer are those of its parts, one after the other; of one HTTPS record they
/// are those of its parameters, and any other record has none.
pub proof fn law_offered_lists(first: Seq<Record>, second: Seq<Record>, params: Vec<SvcParam>)
    ensures
        offered_lists(first + second) == offered_lists(first) + offered_lists(second),
        offered_lists(seq![Record::Https(params)]) == param_lists(params@),
        offered_lists(seq![Record::Other]) == Seq::<Seq<u8>>::empty(),
        offered_lists(seq![]) == Seq::<Seq<u8>>::empty(),
{
    lemma_lists_join(first, second);
    let none = Seq::<Record>::empty();
    assert(seq![Record::Https(params)].drop_last() =~= none);
    assert(seq![Record::Other].drop_last() =~= none);
    assert(offered_lists(none) =~= seq![]);
    assert(offered_lists(seq![Record::Https(params)]) =~= param_lists(params@));
    assert(offered_lists(seq![Record::Other]) =~= seq![]);
}

/// A list under the key for ECH is among those that are offered, wherever in its record it
/// stands and wherever its record stands in the answer.
pub proof fn law_list_is_offered(records: Seq<Record>, r: int, params: Vec<SvcParam>, j: int)
    requires
        0 <= r < records.len(),
        records[r] == Record::Https(params),
        0 <= j < params@.len(),
        params@[j].ech_key,
        params@[j].ech_list is Some,
    ensures
        offered_lists(records).contains(params@[j].ech_list->0@),
{
    let p = params@;
    let list = p[j].ech_list->0@;
    assert(p =~= p.take(j) + (seq![p[j]] + p.skip(j + 1)));
    law_param_lists(p.take(j), seq![p[j]] + p.skip(j + 1), p[j]);
    law_param_lists(seq![p[j]], p.skip(j + 1), p[j]);
    let a = param_lists(p.take(j));
    let b = param_lists(p.skip(j + 1));
    let own = param_lists(p);
    assert(own == a + (seq![list] + b));
    assert(own[a.len() as int] == list);
    assert(records =~= records.take(r) + (seq![records[r]] + records.skip(r + 1)));
    law_offered_lists(records.take(r), seq![records[r]] + records.skip(r + 1), params);
    law_offered_lists(seq![records[r]], records.skip(r + 1), params);
    let before = offered_lists(records.take(r));
    let after = offered_lists(records.skip(r + 1));
    assert(offered_lists(records) == before + (own + after));
    assert(offered_lists(records)[(before.len() + a.len()) as int] == list);
}

/// An answer with any list that can be used gives a configuration.
pub proof fn law_usable_list_is_found(records: Seq<Record>, r: int, params: Vec<SvcParam>, j: int)
    requires
        0 <= r < records.len(),
        records[r] == Record::Https(params),
        0 <= j < params@.len(),
        params@[j].ech_key,
        params@[j].ech_list is Some,
        usable_ech(params@[j].ech_list->0@) is Some,
    ensures
        answer_of(usable_of(offered_lists(records))) is Ech,
{
    law_list_is_offered(records, r, params, j);
    let lists = offered_lists(records);
    let list = params@[j].ech_list->0@;
    let i = choose|i: int| 0 <= i < lists.len() && lists[i] == list;
    law_usable_of(lists);
    law_answer_of(usable_of(lists));
    assert(usable_of(lists)[i] is Some);
}

/// What can be used of the lists is what can be used of each of them, in order.
pub proof fn law_usable_of(lists: Seq<Seq<u8>>)
    ensures
        usable_of(lists).len() == lists.len(),
        forall|i: int|
            0 <= i < lists.len() ==> #[trigger] usable_of(lists)[i] == usable_ech(lists[i]),
{
}

/// The answer is the first of the results that is a configuration, and a definitive no exactly
/// where none of them is one.
pub proof fn law_answer_of<C>(results: Seq<Option<C>>)
    ensures
        match answer_of(results) {
            DohAnswer::Ech(config) => exists|i: int|
                {
                    &&& 0 <= i < results.len()
                    &&& #[trigger] results[i] == Some(config)
                    &&& forall|j: int| 0 <= j < i ==> (#[trigger] results[j]) is None
                },
            DohAnswer::NoEch => forall|i: int|
                0 <= i < results.len() ==> (#[trigger] results[i]) is None,
            DohAnswer::Failed => false,
        },
    decreases results.len(),
{
    if results.len() > 0 {
        if results[0] is Some {
            assert(results[0] == Some(results[0]->0));
        } else {
            let rest = results.drop_first();
            law_answer_of(rest);
            match answer_of(rest) {
                DohAnswer::Ech(config) => {
                    let i = choose|i: int|
                        {
                            &&& 0 <= i < rest.len()
                            &&& #[trigger] rest[i] == Some(config)
                            &&& forall|j: int| 0 <= j < i ==> (#[trigger] rest[j]) is None
                        };
                    assert(results[i + 1] == Some(config));
                    assert forall|j: int| 0 <= j < i + 1 implies (#[trigger] results[j])
                        is None by {
                        if j > 0 {
                            assert(rest[j - 1] == results[j]);
                        }
                    }
                },
                _ => {
                    assert forall|i: int| 0 <= i < results.len() implies (#[trigger] results[i])
                        is None by {
                        if i > 0 {
                            assert(rest[i - 1] == results[i]);
                        }
                    }
                },
            }
        }
    }
}

/// The contents of lists are those of the lists, one by one.
pub proof fn law_list_views(lists: Seq<Vec<u8>>)
    ensures
        list_views(lists).len() == lists.len(),
        forall|i: int| 0 <= i < lists.len() ==> #[trigger] list_views(lists)[i] == lists[i]@,
{
}

} // verus!
