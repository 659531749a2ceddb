//! Fault schedules: every per-packet decision, made before a simulation starts.

use vstd::prelude::*;

use crate::node::NodeId;

verus! {

/// The schema that a schedule names.
pub const SCHEDULE_SCHEMA: &'static str = "chirps.deterministic-network-schedule/v1";

/// The version of the generator behind [`FaultSchedule::from_seed`].
pub const GENERATOR_VERSION: u32 = 1;

/// A link from one node to another.
#[derive(Debug, Clone, Copy, PartialEq, Eq, PartialOrd, Ord, Hash, Structural)]
pub struct DirectedLink {
    pub source: NodeId,
    pub target: NodeId,
}

impl DirectedLink {
    /// The link from `source` to `target`.
    pub fn new(source: NodeId, target: NodeId) -> (link: Self)
        ensures
            link == (DirectedLink { source, target }),
    {
        DirectedLink { source, target }
    }
}

/// What happens to a packet.
#[derive(Debug, Clone, Copy, PartialEq, Eq, Structural)]
pub enum FaultEffect {
    Delay { ticks: u64 },
    Drop,
    /// The number of copies to enqueue, the original counted.
    Duplicate { copies: u16 },
    Reorder { extra_ticks: u64 },
}

/// What happens to one packet of a link: the one numbered `occurrence`, from zero.
#[derive(Debug, PartialEq, Eq)]
pub struct FaultRule {
    pub link: DirectedLink,
    pub occurrence: u64,
    pub effects: Vec<FaultEffect>,
}

/// A rule, seen as plain values.
pub struct RuleView {
    pub link: DirectedLink,
    pub occurrence: u64,
    pub effects: Seq<FaultEffect>,
}

impl View for FaultRule {
    type V = RuleView;

    open spec fn view(&self) -> RuleView {
        RuleView { link: self.link, occurrence: self.occurrence, effects: self.effects@ }
    }
}

fn copy_effects(effects: &Vec<FaultEffect>) -> (copy: Vec<FaultEffect>)
    ensures
        copy@ == effects@,
{
    let mut copy: Vec<FaultEffect> = Vec::new();
    let mut i: usize = 0;
    while i < effects.len()
        invariant
            i <= effects@.len(),
            copy@ == effects@.take(i as int),
        decreases effects@.len() - i,
    {
        copy.push(effects[i]);
        i = i + 1;
        assert(copy@ =~= effects@.take(i as int));
    }
    assert(copy@ =~= effects@);
    copy
}

impl Clone for FaultRule {
    fn clone(&self) -> (copy: Self)
        ensures
            copy@ == self@,
    {
        FaultRule { link: self.link, occurrence: self.occurrence, effects: copy_effects(&self.effects) }
    }
}

/// Whether link `a` comes before link `b`: the source decides, then the target.
pub open spec fn link_before(a: DirectedLink, b: DirectedLink) -> bool {
    a.source.id < b.source.id || (a.source.id == b.source.id && a.target.id < b.target.id)
}

/// Whether the packet `(a, m)` comes before the packet `(b, n)`: the link decides, then
/// the occurrence.
pub open spec fn packet_before(a: DirectedLink, m: u64, b: DirectedLink, n: u64) -> bool {
    link_before(a, b) || (a == b && m < n)
}

/// Whether rules stand in strictly increasing order of their packets.
pub open spec fn in_order(rules: Seq<RuleView>) -> bool {
    forall|i: int, j: int|
        0 <= i < j < rules.len() ==> packet_before(
            (#[trigger] rules[i]).link,
            rules[i].occurrence,
            (#[trigger] rules[j]).link,
            rules[j].occurrence,
        )
}

/// The views of a list of rules.
pub open spec fn rule_views(rules: Seq<FaultRule>) -> Seq<RuleView> {
    rules.map_values(|r: FaultRule| r@)
}

/// A schedule of faults.
#[derive(Debug, PartialEq, Eq)]
pub struct FaultSchedule {
    pub schema: String,
    pub seed: u64,
    pub generator_version: u32,
    rules: Vec<FaultRule>,
}

/// A schedule, seen as plain values.
#[verifier::ext_equal]
pub struct ScheduleView {
    pub schema: Seq<char>,
    pub seed: u64,
    pub generator_version: u32,
    pub rules: Seq<RuleView>,
}

impl View for FaultSchedule {
    type V = ScheduleView;

    closed spec fn view(&self) -> ScheduleView {
        ScheduleView {
            schema: self.schema@,
            seed: self.seed,
            generator_version: self.generator_version,
            rules: rule_views(self.rules@),
        }
    }
}

/// The schedule without rules.
pub open spec fn no_faults(seed: u64) -> ScheduleView {
    ScheduleView {
        schema: "chirps.deterministic-network-schedule/v1"@,
        seed,
        generator_version: GENERATOR_VERSION,
        rules: Seq::empty(),
    }
}

/// A schedule with other rules.
pub open spec fn with_rules(s: ScheduleView, rules: Seq<RuleView>) -> ScheduleView {
    ScheduleView { rules, ..s }
}

/// A schedule without the rule at `index`.
pub open spec fn rule_removed(s: ScheduleView, index: int) -> ScheduleView {
    with_rules(s, s.rules.remove(index))
}

/// A schedule without the effect at `effect` of the rule at `rule`.
pub open spec fn effect_removed(s: ScheduleView, rule: int, effect: int) -> ScheduleView {
    with_rules(
        s,
        s.rules.update(
            rule,
            RuleView { effects: s.rules[rule].effects.remove(effect), ..s.rules[rule] },
        ),
    )
}

/// What happens to the packet numbered `occurrence` of `link`.
pub open spec fn effects_at(rules: Seq<RuleView>, link: DirectedLink, occurrence: u64) -> Seq<FaultEffect> {
    if exists|i: int|
        0 <= i < rules.len() && (#[trigger] rules[i]).link == link && rules[i].occurrence
            == occurrence {
        let i = choose|i: int|
            0 <= i < rules.len() && (#[trigger] rules[i]).link == link && rules[i].occurrence
                == occurrence;
        rules[i].effects
    } else {
        Seq::empty()
    }
}

/// The state of the generator after one more draw.
pub open spec fn next_state(state: u64) -> u64 {
    state.wrapping_add(0x9e37_79b9_7f4a_7c15)
}

/// The state of the generator after `n` draws.
pub open spec fn state_after(seed: u64, n: nat) -> u64
    decreases n,
{
    if n == 0 {
        seed
    } else {
        next_state(state_after(seed, (n - 1) as nat))
    }
}

/// The number that the generator gives in a state.
pub open spec fn mixed(state: u64) -> u64 {
    let a = (state ^ (state >> 30)).wrapping_mul(0xbf58_476d_1ce4_e5b9);
    let b = (a ^ (a >> 27)).wrapping_mul(0x94d0_49bb_1331_11eb);
    b ^ (b >> 31)
}

/// The effects that a drawn number stands for.
pub open spec fn drawn_effects(draw: u64) -> Seq<FaultEffect> {
    if draw % 6 == 0 {
        Seq::empty()
    } else if draw % 6 == 1 {
        seq![FaultEffect::Delay { ticks: (1 + (draw >> 8) % 3) as u64 }]
    } else if draw % 6 == 2 {
        seq![FaultEffect::Drop]
    } else if draw % 6 == 3 {
        seq![FaultEffect::Duplicate { copies: 2 }]
    } else if draw % 6 == 4 {
        seq![FaultEffect::Reorder { extra_ticks: (1 + (draw >> 8) % 4) as u64 }]
    } else {
        seq![FaultEffect::Delay { ticks: 1 }, FaultEffect::Duplicate { copies: 2 }]
    }
}

/// The rules for the first `n` packets, where each link in turn has `messages` packets
/// and each packet takes one draw. A packet without effects has no rule.
pub open spec fn seeded_rules(seed: u64, links: Seq<DirectedLink>, messages: nat, n: nat) -> Seq<RuleView>
    decreases n,
{
    if n == 0 {
        Seq::empty()
    } else {
        let before = seeded_rules(seed, links, messages, (n - 1) as nat);
        let packet = (n - 1) as int;
        let effects = drawn_effects(mixed(state_after(seed, n)));
        if effects.len() == 0 {
            before
        } else {
            before.push(
                RuleView {
                    link: links[packet / messages as int],
                    occurrence: (packet % messages as int) as u64,
                    effects,
                },
            )
        }
    }
}

/// Whether links stand in strictly increasing order.
pub open spec fn links_in_order(links: Seq<DirectedLink>) -> bool {
    forall|i: int, j: int|
        0 <= i < j < links.len() ==> link_before(#[trigger] links[i], #[trigger] links[j])
}

/// The next number of the generator.
pub fn splitmix64(state: &mut u64) -> (draw: u64)
    ensures
        *final(state) == next_state(*old(state)),
        draw == mixed(*final(state)),
{
    *state = state.wrapping_add(0x9e37_79b9_7f4a_7c15);
    let value: u64 = *state;
    let a: u64 = (value ^ (value >> 30)).wrapping_mul(0xbf58_476d_1ce4_e5b9);
    let b: u64 = (a ^ (a >> 27)).wrapping_mul(0x94d0_49bb_1331_11eb);
    b ^ (b >> 31)
}

/// The effects that a drawn number stands for.
fn effects_of(draw: u64) -> (effects: Vec<FaultEffect>)
    ensures
        effects@ == drawn_effects(draw),
{
    let mut effects: Vec<FaultEffect> = Vec::new();
    let choice: u64 = draw % 6;
    if choice == 0 {
    } else if choice == 1 {
        effects.push(FaultEffect::Delay { ticks: 1 + ((draw >> 8) % 3) });
    } else if choice == 2 {
        effects.push(FaultEffect::Drop);
    } else if choice == 3 {
        effects.push(FaultEffect::Duplicate { copies: 2 });
    } else if choice == 4 {
        effects.push(FaultEffect::Reorder { extra_ticks: 1 + ((draw >> 8) % 4) });
    } else {
        effects.push(FaultEffect::Delay { ticks: 1 });
        effects.push(FaultEffect::Duplicate { copies: 2 });
    }
    assert(effects@ =~= drawn_effects(draw));
    effects
}

fn link_is_before(a: DirectedLink, b: DirectedLink) -> (before: bool)
    ensures
        before == link_before(a, b),
{
    a.source.id < b.source.id || (a.source.id == b.source.id && a.target.id < b.target.id)
}

fn packet_is_before(a: DirectedLink, m: u64, b: DirectedLink, n: u64) -> (before: bool)
    ensures
        before == packet_before(a, m, b, n),
{
    link_is_before(a, b) || (a == b && m < n)
}

/// The distinct links of a list, in increasing order.
fn sorted_links(links: &[DirectedLink]) -> (sorted: Vec<DirectedLink>)
    ensures
        links_in_order(sorted@),
        forall|l: DirectedLink| #[trigger] sorted@.contains(l) <==> links@.contains(l),
{
    let mut sorted: Vec<DirectedLink> = Vec::new();
    let mut i: usize = 0;
    while i < links.len()
        invariant
            i <= links@.len(),
            links_in_order(sorted@),
            forall|l: DirectedLink| #[trigger]
                sorted@.contains(l) <==> links@.take(i as int).contains(l),
        decreases links@.len() - i,
    {
        let link = links[i];
        let ghost before = sorted@;
        let mut place: usize = 0;
        while place < sorted.len() && link_is_before(sorted[place], link)
            invariant
                place <= sorted@.len(),
                forall|j: int| 0 <= j < place ==> link_before(#[trigger] sorted@[j], link),
            decreases sorted@.len() - place,
        {
            place = place + 1;
        }
        let ghost shorter = links@.take(i as int);
        let ghost longer = links@.take(i + 1);
        proof {
            assert forall|l: DirectedLink| #[trigger]
                longer.contains(l) <==> (shorter.contains(l) || l == link) by {
                if longer.contains(l) {
                    let j = choose|j: int| 0 <= j < longer.len() && longer[j] == l;
                    if j < i {
                        assert(shorter[j] == l);
                    }
                }
                if shorter.contains(l) {
                    let j = choose|j: int| 0 <= j < shorter.len() && shorter[j] == l;
                    assert(longer[j] == l);
                }
                if l == link {
                    assert(longer[i as int] == l);
                }
            }
        }
        if place < sorted.len() && sorted[place] == link {
            assert(before.contains(link)) by {
                assert(before[place as int] == link);
            }
        } else {
            sorted.insert(place, link);
            proof {
                assert(sorted@ == before.insert(place as int, link));
                assert forall|j: int| place <= j < before.len() implies link_before(
                    link,
                    #[trigger] before[j],
                ) by {
                    if j > place {
                        assert(link_before(before[place as int], before[j]));
                    }
                    assert(!link_before(before[place as int], link));
                }
                assert forall|l: DirectedLink| #[trigger]
                    sorted@.contains(l) <==> (before.contains(l) || l == link) by {
                    if sorted@.contains(l) {
                        let j = choose|j: int| 0 <= j < sorted@.len() && sorted@[j] == l;
                        if j < place {
                            assert(before[j] == l);
                        } else if j > place {
                            assert(before[j - 1] == l);
                        }
                    }
                    if before.contains(l) {
                        let j = choose|j: int| 0 <= j < before.len() && before[j] == l;
                        if j < place {
                            assert(sorted@[j] == l);
                        } else {
                            assert(sorted@[j + 1] == l);
                        }
                    }
                    if l == link {
                        assert(sorted@[place as int] == l);
                    }
                }
            }
        }
        i = i + 1;
    }
    assert(links@.take(links@.len() as int) =~= links@);
    sorted
}

impl FaultSchedule {
    /// The rules stand in strictly increasing order of their packets.
    pub open spec fn wf(&self) -> bool {
        in_order(self@.rules)
    }

    /// The schedule without rules.
    pub fn empty(seed: u64) -> (schedule: Self)
        ensures
            schedule@ == no_faults(seed),
            schedule.wf(),
    {
        let schedule = FaultSchedule {
            schema: String::from_str("chirps.deterministic-network-schedule/v1"),
            seed,
            generator_version: GENERATOR_VERSION,
            rules: Vec::new(),
        };
        assert(schedule@.rules =~= Seq::<RuleView>::empty());
        schedule
    }

    /// Draws the effects of `messages_per_link` packets on every link. The links are
    /// taken in increasing order, each once.
    pub fn from_seed(seed: u64, links: &[DirectedLink], messages_per_link: u64) -> (schedule: Self)
        ensures
            schedule.wf(),
            exists|sorted: Seq<DirectedLink>|
                {
                    &&& #[trigger] links_in_order(sorted)
                    &&& forall|l: DirectedLink| #[trigger]
                        sorted.contains(l) <==> links@.contains(l)
                    &&& schedule@ == with_rules(
                        no_faults(seed),
                        seeded_rules(
                            seed,
                            sorted,
                            messages_per_link as nat,
                            sorted.len() * messages_per_link as nat,
                        ),
                    )
                },
    {
        let mut state: u64 = seed;
        let sorted = sorted_links(links);
        let mut schedule = FaultSchedule::empty(seed);
        let ghost n: nat = 0;
        let ghost messages = messages_per_link as nat;
        let mut i: usize = 0;
        while i < sorted.len()
            invariant
                i <= sorted@.len(),
                messages == messages_per_link,
                links_in_order(sorted@),
                n == i * messages,
                state == state_after(seed, n),
                schedule@ == with_rules(
                    no_faults(seed),
                    seeded_rules(seed, sorted@, messages, n),
                ),
                in_order(schedule@.rules),
                forall|r: int|
                    0 <= r < schedule@.rules.len() ==> exists|j: int|
                        0 <= j < i && sorted@[j] == (#[trigger] schedule@.rules[r]).link,
            decreases sorted@.len() - i,
        {
            let link = sorted[i];
            let mut occurrence: u64 = 0;
            let ghost outer = n;
            while occurrence < messages_per_link
                invariant
                    occurrence <= messages_per_link,
                    messages == messages_per_link,
                    i < sorted@.len(),
                    link == sorted@[i as int],
                    links_in_order(sorted@),
                    outer == i * messages,
                    n == outer + occurrence,
                    state == state_after(seed, n),
                    schedule@ == with_rules(
                        no_faults(seed),
                        seeded_rules(seed, sorted@, messages, n),
                    ),
                    in_order(schedule@.rules),
                    forall|r: int|
                        0 <= r < schedule@.rules.len() ==> ((#[trigger] schedule@.rules[r]).link
                            == link && schedule@.rules[r].occurrence < occurrence) || exists|j: int|
                            0 <= j < i && sorted@[j] == schedule@.rules[r].link,
                decreases messages_per_link - occurrence,
            {
                let draw: u64 = splitmix64(&mut state);
                let effects = effects_of(draw);
                let ghost rules = schedule@.rules;
                proof {
                    let m = messages as int;
                    let a = i as int;
                    let o = occurrence as int;
                    assert((a * m + o) / m == a && (a * m + o) % m == o) by {
                        vstd::arithmetic::div_mod::lemma_fundamental_div_mod_converse(
                            a * m + o,
                            m,
                            a,
                            o,
                        );
                    }
                    assert(n == a * m + o);
                }
                if effects.len() > 0 {
                    let ghost added = RuleView { link, occurrence, effects: effects@ };
                    schedule.rules.push(FaultRule { link, occurrence, effects });
                    proof {
                        assert(schedule@.rules =~= rules.push(added));
                        assert forall|r: int| 0 <= r < rules.len() implies packet_before(
                            (#[trigger] rules[r]).link,
                            rules[r].occurrence,
                            link,
                            occurrence,
                        ) by {
                            if !(rules[r].link == link && rules[r].occurrence < occurrence) {
                                let j = choose|j: int|
                                    0 <= j < i && sorted@[j] == rules[r].link;
                                assert(link_before(sorted@[j], sorted@[i as int]));
                            }
                        }
                    }
                }
                proof {
                    n = n + 1;
                }
                occurrence = occurrence + 1;
            }
            proof {
                assert(outer + messages == (i + 1) * messages) by (nonlinear_arith)
                    requires
                        outer == i * messages,
                ;
                assert forall|r: int| 0 <= r < schedule@.rules.len() implies exists|j: int|
                    0 <= j < i + 1 && sorted@[j] == (#[trigger] schedule@.rules[r]).link by {
                    if schedule@.rules[r].link == link {
                        assert(sorted@[i as int] == schedule@.rules[r].link);
                    }
                }
            }
            i = i + 1;
        }
        assert(links_in_order(sorted@));
        schedule
    }

    /// The rules, in order.
    pub fn rules(&self) -> (rules: &[FaultRule])
        ensures
            rule_views(rules@) == self@.rules,
    {
        self.rules.as_slice()
    }

    /// A copy without the rule at `index`.
    pub fn without_rule(&self, index: usize) -> (candidate: Self)
        requires
            index < self@.rules.len(),
        ensures
            candidate@ == rule_removed(self@, index as int),
            self.wf() ==> candidate.wf(),
    {
        let mut candidate = self.clone();
        candidate.rules.remove(index);
        assert(candidate@.rules =~= self@.rules.remove(index as int));
        candidate
    }

    /// A copy without the effect at `effect` of the rule at `rule`.
    pub fn without_effect(&self, rule: usize, effect: usize) -> (candidate: Self)
        requires
            rule < self@.rules.len(),
            effect < self@.rules[rule as int].effects.len(),
        ensures
            candidate@ == effect_removed(self@, rule as int, effect as int),
            self.wf() ==> candidate.wf(),
    {
        let mut candidate = self.clone();
        let ghost before = candidate.rules@;
        let mut one = candidate.rules[rule].clone();
        one.effects.remove(effect);
        candidate.rules.set(rule, one);
        assert(candidate@.rules =~= effect_removed(self@, rule as int, effect as int).rules);
        candidate
    }

    /// What happens to the packet numbered `occurrence` of `link`.
    pub fn effects_for(&self, link: DirectedLink, occurrence: u64) -> (effects: Vec<FaultEffect>)
        requires
            self.wf(),
        ensures
            effects@ == effects_at(self@.rules, link, occurrence),
    {
        let ghost rules = self@.rules;
        let mut low: usize = 0;
        let mut high: usize = self.rules.len();
        while low < high
            invariant
                low <= high <= self.rules@.len(),
                rules == self@.rules,
                in_order(rules),
                forall|i: int|
                    0 <= i < low ==> packet_before(
                        (#[trigger] rules[i]).link,
                        rules[i].occurrence,
                        link,
                        occurrence,
                    ),
                forall|i: int|
                    high <= i < rules.len() ==> packet_before(
                        link,
                        occurrence,
                        (#[trigger] rules[i]).link,
                        rules[i].occurrence,
                    ),
            decreases high - low,
        {
            let middle: usize = low + (high - low) / 2;
            let found_link = self.rules[middle].link;
            let found: u64 = self.rules[middle].occurrence;
            assert(rules[middle as int] == self.rules@[middle as int]@);
            if found_link == link && found == occurrence {
                let effects = copy_effects(&self.rules[middle].effects);
                proof {
                    assert(rules[middle as int].link == link && rules[middle as int].occurrence
                        == occurrence);
                    let i = choose|i: int|
                        0 <= i < rules.len() && (#[trigger] rules[i]).link == link
                            && rules[i].occurrence == occurrence;
                    if i < middle {
                        assert(packet_before(
                            rules[i].link,
                            rules[i].occurrence,
                            rules[middle as int].link,
                            rules[middle as int].occurrence,
                        ));
                    }
                    if middle < i {
                        assert(packet_before(
                            rules[middle as int].link,
                            rules[middle as int].occurrence,
                            rules[i].link,
                            rules[i].occurrence,
                        ));
                    }
                }
                return effects;
            }
            if packet_is_before(found_link, found, link, occurrence) {
                low = middle + 1;
            } else {
                high = middle;
            }
        }
        let none: Vec<FaultEffect> = Vec::new();
        assert(none@ =~= effects_at(rules, link, occurrence));
        none
    }
}

impl Clone for FaultSchedule {
    fn clone(&self) -> (copy: Self)
        ensures
            copy@ == self@,
    {
        let mut rules: Vec<FaultRule> = Vec::new();
        let mut i: usize = 0;
        while i < self.rules.len()
            invariant
                i <= self.rules@.len(),
                rules@.len() == i,
                forall|j: int| 0 <= j < i ==> (#[trigger] rules@[j])@ == self.rules@[j]@,
            decreases self.rules@.len() - i,
        {
            rules.push(self.rules[i].clone());
            i = i + 1;
        }
        assert(rule_views(rules@) =~= rule_views(self.rules@));
        FaultSchedule {
            schema: self.schema.clone(),
            seed: self.seed,
            generator_version: self.generator_version,
            rules,
        }
    }
}

/// Gathers the rules of a schedule in any order.
#[derive(Debug)]
pub struct FaultScheduleBuilder {
    schedule: FaultSchedule,
}

impl View for FaultScheduleBuilder {
    type V = ScheduleView;

    closed spec fn view(&self) -> ScheduleView {
        self.schedule@
    }
}

/// Whether no two rules are for the same packet.
pub open spec fn distinct_packets(rules: Seq<RuleView>) -> bool {
    forall|i: int, j: int|
        0 <= i < j < rules.len() ==> (#[trigger] rules[i]).link != (#[trigger] rules[j]).link
            || rules[i].occurrence != rules[j].occurrence
}

impl FaultScheduleBuilder {
    /// A builder without rules.
    pub fn new(seed: u64) -> (builder: Self)
        ensures
            builder@ == no_faults(seed),
    {
        FaultScheduleBuilder { schedule: FaultSchedule::empty(seed) }
    }

    /// Adds a rule for the packet numbered `occurrence` of `link`.
    pub fn on_nth(self, link: DirectedLink, occurrence: u64, effects: Vec<FaultEffect>) -> (builder: Self)
        ensures
            builder@ == with_rules(
                self@,
                self@.rules.push(RuleView { link, occurrence, effects: effects@ }),
            ),
    {
        let ghost before = self@.rules;
        let ghost added = RuleView { link, occurrence, effects: effects@ };
        let mut schedule = self.schedule;
        schedule.rules.push(FaultRule { link, occurrence, effects });
        assert(schedule@.rules =~= before.push(added));
        FaultScheduleBuilder { schedule }
    }

    /// The schedule of the rules, put in order.
    pub fn build(self) -> (schedule: FaultSchedule)
        requires
            distinct_packets(self@.rules),
        ensures
            schedule.wf(),
            schedule@ == with_rules(self@, schedule@.rules),
            schedule@.rules.len() == self@.rules.len(),
            forall|r: RuleView| #[trigger] schedule@.rules.contains(r) <==> self@.rules.contains(r),
    {
        let ghost all = self@.rules;
        let mut unsorted = self.schedule;
        let mut rest: Vec<FaultRule> = Vec::new();
        std::mem::swap(&mut rest, &mut unsorted.rules);
        assert(rule_views(rest@) =~= all);
        let mut sorted: Vec<FaultRule> = Vec::new();
        let ghost source = rest@;
        for rule in it: rest
            invariant
                it.seq() == source,
                rule_views(source) == all,
                distinct_packets(all),
                in_order(rule_views(sorted@)),
                sorted@.len() == it.index(),
                forall|r: RuleView| #[trigger]
                    rule_views(sorted@).contains(r) <==> all.take(it.index()).contains(r),
        {
            let ghost i = it.index();
            let ghost before = rule_views(sorted@);
            let ghost added = rule@;
            let mut place: usize = 0;
            while place < sorted.len() && packet_is_before(
                sorted[place].link,
                sorted[place].occurrence,
                rule.link,
                rule.occurrence,
            )
                invariant
                    place <= sorted@.len(),
                    forall|j: int|
                        0 <= j < place ==> packet_before(
                            (#[trigger] sorted@[j]).link,
                            sorted@[j].occurrence,
                            rule.link,
                            rule.occurrence,
                        ),
                decreases sorted@.len() - place,
            {
                place = place + 1;
            }
            proof {
                assert(all[i] == added);
                assert forall|j: int| place <= j < before.len() implies packet_before(
                    added.link,
                    added.occurrence,
                    (#[trigger] before[j]).link,
                    before[j].occurrence,
                ) by {
                    assert(before.contains(before[j]));
                    assert(all.take(i).contains(before[j]));
                    let k = choose|k: int| 0 <= k < all.take(i).len() && all.take(i)[k] == before[j];
                    assert(all[k] == before[j]);
                    assert(all[k].link != all[i].link || all[k].occurrence != all[i].occurrence);
                    let first = before[place as int];
                    assert(first == sorted@[place as int]@);
                    if j > place {
                        assert(packet_before(
                            before[place as int].link,
                            before[place as int].occurrence,
                            before[j].link,
                            before[j].occurrence,
                        ));
                    }
                }
                assert forall|j: int| 0 <= j < place implies packet_before(
                    (#[trigger] before[j]).link,
                    before[j].occurrence,
                    added.link,
                    added.occurrence,
                ) by {
                    assert(before[j] == sorted@[j]@);
                }
            }
            sorted.insert(place, rule);
            proof {
                let after = rule_views(sorted@);
                assert(after =~= before.insert(place as int, added));
                assert(in_order(after));
                insertion_members(before, place as int, added);
                prefix_members(all, i);
            }
        }
        assert(all.take(all.len() as int) =~= all);
        unsorted.rules = sorted;
        unsorted
    }
}

proof fn insertion_members(before: Seq<RuleView>, place: int, added: RuleView)
    requires
        0 <= place <= before.len(),
    ensures
        forall|r: RuleView| #[trigger]
            before.insert(place, added).contains(r) <==> (before.contains(r) || r == added),
{
    let after = before.insert(place, added);
    assert forall|r: RuleView| #[trigger]
        after.contains(r) <==> (before.contains(r) || r == added) by {
        if after.contains(r) {
            let j = choose|j: int| 0 <= j < after.len() && after[j] == r;
            if j < place {
                assert(before[j] == r);
            } else if j > place {
                assert(before[j - 1] == r);
            }
        }
        if before.contains(r) {
            let j = choose|j: int| 0 <= j < before.len() && before[j] == r;
            if j < place {
                assert(after[j] == r);
            } else {
                assert(after[j + 1] == r);
            }
        }
        if r == added {
            assert(after[place] == r);
        }
    }
}

proof fn prefix_members(all: Seq<RuleView>, i: int)
    requires
        0 <= i < all.len(),
    ensures
        forall|r: RuleView| #[trigger]
            all.take(i + 1).contains(r) <==> (all.take(i).contains(r) || r == all[i]),
{
    let shorter = all.take(i);
    let longer = all.take(i + 1);
    assert forall|r: RuleView| #[trigger]
        longer.contains(r) <==> (shorter.contains(r) || r == all[i]) by {
        if longer.contains(r) {
            let j = choose|j: int| 0 <= j < longer.len() && longer[j] == r;
            if j < i {
                assert(shorter[j] == r);
            }
        }
        if shorter.contains(r) {
            let j = choose|j: int| 0 <= j < shorter.len() && shorter[j] == r;
            assert(longer[j] == r);
        }
        if r == all[i] {
            assert(longer[i] == r);
        }
    }
}

/// What happens to a packet is what its rule says, and nothing where no rule is about it. Rules
/// about other packets have no part in that.
pub proof fn rule_is_about_its_packet_alone(
    rules: Seq<RuleView>,
    i: int,
    link: DirectedLink,
    occurrence: u64,
)
    requires
        in_order(rules),
        0 <= i < rules.len(),
    ensures
        effects_at(rules, rules[i].link, rules[i].occurrence) == rules[i].effects,
        (forall|j: int|
            0 <= j < rules.len() ==> (#[trigger] rules[j]).link != link || rules[j].occurrence
                != occurrence) ==> effects_at(rules, link, occurrence).len() == 0,
{
    let a = rules[i].link;
    let m = rules[i].occurrence;
    let k = choose|k: int|
        0 <= k < rules.len() && (#[trigger] rules[k]).link == a && rules[k].occurrence == m;
    assert(rules[i].link == a);
    if k < i {
        assert(packet_before(rules[k].link, rules[k].occurrence, rules[i].link, rules[i].occurrence));
    }
    if i < k {
        assert(packet_before(rules[i].link, rules[i].occurrence, rules[k].link, rules[k].occurrence));
    }
}

/// Packets are in one strict order: of two different packets one comes before the other, and not
/// the other way round. The packets of one link come in the order of their numbers.
pub proof fn packet_order_is_strict(a: DirectedLink, m: u64, b: DirectedLink, n: u64)
    ensures
        packet_before(a, m, b, n) ==> !packet_before(b, n, a, m),
        (a != b || m != n) ==> packet_before(a, m, b, n) || packet_before(b, n, a, m),
        !packet_before(a, m, a, m),
        packet_before(a, m, a, n) <==> m < n,
        a.source.id < b.source.id ==> packet_before(a, m, b, n),
        a.source == b.source && a.target.id < b.target.id ==> packet_before(a, m, b, n),
{
}

/// A drawn number stands for at most two effects. None of them drops a packet but a lone drop, a
/// packet is copied twice at most, and no draw holds a packet up for more than four ticks.
pub proof fn drawn_effects_are_mild(draw: u64)
    ensures
        drawn_effects(draw).len() <= 2,
        draw % 6 == 0 <==> drawn_effects(draw).len() == 0,
        draw % 6 == 2 <==> drawn_effects(draw) == seq![FaultEffect::Drop],
        draw % 6 == 5 <==> drawn_effects(draw).len() == 2,
        forall|i: int|
            0 <= i < drawn_effects(draw).len() ==> match #[trigger] drawn_effects(draw)[i] {
                FaultEffect::Drop => draw % 6 == 2,
                FaultEffect::Duplicate { copies } => copies == 2 && (draw % 6 == 3 || draw % 6 == 5),
                FaultEffect::Delay { ticks } => (draw % 6 == 1 && 1 <= ticks <= 3 && ticks == 1 + (
                draw >> 8) % 3) || (draw % 6 == 5 && ticks == 1),
                FaultEffect::Reorder { extra_ticks } => draw % 6 == 4 && 1 <= extra_ticks <= 4
                    && extra_ticks == 1 + (draw >> 8) % 4,
            },
{
    if draw % 6 != 2 {
        assert(drawn_effects(draw).len() > 0 ==> !(drawn_effects(draw)[0] is Drop));
    }
}

proof fn seeded_rule_is_drawn(seed: u64, links: Seq<DirectedLink>, messages: nat, n: nat, k: int)
    requires
        0 <= k < n,
        messages > 0,
        drawn_effects(mixed(state_after(seed, (k + 1) as nat))).len() > 0,
    ensures
        seeded_rules(seed, links, messages, n).contains(
            RuleView {
                link: links[k / messages as int],
                occurrence: (k % messages as int) as u64,
                effects: drawn_effects(mixed(state_after(seed, (k + 1) as nat))),
            },
        ),
    decreases n,
{
    let rule = RuleView {
        link: links[k / messages as int],
        occurrence: (k % messages as int) as u64,
        effects: drawn_effects(mixed(state_after(seed, (k + 1) as nat))),
    };
    let all = seeded_rules(seed, links, messages, n);
    let before = seeded_rules(seed, links, messages, (n - 1) as nat);
    if k == n - 1 {
        assert(all[all.len() - 1] == rule);
    } else {
        seeded_rule_is_drawn(seed, links, messages, (n - 1) as nat, k);
        let i = choose|i: int| 0 <= i < before.len() && before[i] == rule;
        assert(all[i] == rule);
    }
}

proof fn seeded_rules_are_drawn(seed: u64, links: Seq<DirectedLink>, messages: nat, n: nat, i: int) -> (k: int)
    requires
        messages > 0,
        0 <= i < seeded_rules(seed, links, messages, n).len(),
    ensures
        0 <= k < n,
        seeded_rules(seed, links, messages, n)[i] == (RuleView {
            link: links[k / messages as int],
            occurrence: (k % messages as int) as u64,
            effects: drawn_effects(mixed(state_after(seed, (k + 1) as nat))),
        }),
        seeded_rules(seed, links, messages, n)[i].effects.len() > 0,
    decreases n,
{
    let before = seeded_rules(seed, links, messages, (n - 1) as nat);
    if i < before.len() {
        seeded_rules_are_drawn(seed, links, messages, (n - 1) as nat, i)
    } else {
        n - 1
    }
}

/// A seeded schedule draws once for each packet, link by link: the packet numbered `occurrence` of
/// the link at `place` takes the draw of its turn, has a rule exactly where that draw has
/// effects, and no other packet has one.
pub proof fn seeded_packets_take_their_turn(
    seed: u64,
    links: Seq<DirectedLink>,
    messages: nat,
    place: int,
    occurrence: u64,
    i: int,
)
    requires
        messages > 0,
    ensures
        ({
            let rules = seeded_rules(seed, links, messages, links.len() * messages);
            let turn = place * messages + occurrence + 1;
            let effects = drawn_effects(mixed(state_after(seed, turn as nat)));
            &&& 0 <= place < links.len() && occurrence < messages && effects.len() > 0
                ==> rules.contains(RuleView { link: links[place], occurrence, effects })
            &&& 0 <= i < rules.len() ==> {
                &&& rules[i].effects.len() > 0
                &&& rules[i].occurrence < messages
                &&& links.contains(rules[i].link)
            }
        }),
{
    let n = links.len() * messages;
    let rules = seeded_rules(seed, links, messages, n);
    if 0 <= place < links.len() && occurrence < messages {
        let k = place * messages + occurrence;
        assert(k < n && k >= 0) by (nonlinear_arith)
            requires
                k == place * messages + occurrence,
                n == links.len() * messages,
                0 <= place < links.len(),
                0 <= occurrence < messages,
        ;
        vstd::arithmetic::div_mod::lemma_fundamental_div_mod_converse(
            k,
            messages as int,
            place,
            occurrence as int,
        );
        if drawn_effects(mixed(state_after(seed, (k + 1) as nat))).len() > 0 {
            seeded_rule_is_drawn(seed, links, messages, n, k);
        }
    }
    if 0 <= i < rules.len() {
        let k = seeded_rules_are_drawn(seed, links, messages, n, i);
        let m = messages as int;
        assert(0 <= k / m < links.len()) by (nonlinear_arith)
            requires
                0 <= k < links.len() * m,
                m > 0,
        ;
        assert(0 <= k % m < m) by (nonlinear_arith)
            requires
                m > 0,
        ;
        assert(links.contains(links[k / m]));
        assert((k % m) as u64 <= k % m) by {
            if k % m <= u64::MAX {
            } else {
                assert(((k % m) as u64) <= u64::MAX);
            }
        }
    }
}

/// Drawing goes through states that are an odd step apart, so two draws in a row never start from
/// the same state.
pub proof fn generator_moves_on(state: u64)
    ensures
        next_state(state) != state,
        next_state(state) as int == (state + 0x9e37_79b9_7f4a_7c15) % 0x1_0000_0000_0000_0000,
{
}

/// Leaving a rule out leaves the others in their order and all else of the schedule as it is, and
/// leaving an effect out changes that rule's effects alone.
pub proof fn leaving_out_takes_one_thing(s: ScheduleView, i: int, j: int, k: int)
    requires
        0 <= i < s.rules.len(),
    ensures
        ({
            let fewer = rule_removed(s, i);
            &&& fewer.rules.len() == s.rules.len() - 1
            &&& 0 <= k < i ==> fewer.rules[k] == s.rules[k]
            &&& i <= k < fewer.rules.len() ==> fewer.rules[k] == s.rules[k + 1]
            &&& fewer.seed == s.seed && fewer.schema == s.schema && fewer.generator_version
                == s.generator_version
        }),
        0 <= j < s.rules[i].effects.len() ==> {
            let fewer = effect_removed(s, i, j);
            &&& fewer.rules.len() == s.rules.len()
            &&& 0 <= k < s.rules.len() && k != i ==> fewer.rules[k] == s.rules[k]
            &&& fewer.rules[i].link == s.rules[i].link
            &&& fewer.rules[i].occurrence == s.rules[i].occurrence
            &&& fewer.rules[i].effects.len() == s.rules[i].effects.len() - 1
            &&& 0 <= k < j ==> fewer.rules[i].effects[k] == s.rules[i].effects[k]
            &&& j <= k < fewer.rules[i].effects.len() ==> fewer.rules[i].effects[k]
                == s.rules[i].effects[k + 1]
            &&& fewer.seed == s.seed && fewer.schema == s.schema && fewer.generator_version
                == s.generator_version
        },
{
}

/// A rule that is added comes with its packet and its effects, and a schedule that is built has
/// just the rules that were added.
pub proof fn schedule_has_the_rules_added(
    builder: FaultScheduleBuilder,
    link: DirectedLink,
    occurrence: u64,
    effects: Vec<FaultEffect>,
    more: FaultScheduleBuilder,
    schedule: FaultSchedule,
    r: RuleView,
)
    requires
        distinct_packets(more@.rules),
        call_ensures(FaultScheduleBuilder::on_nth, (builder, link, occurrence, effects), more),
        call_ensures(FaultScheduleBuilder::build, (more,), schedule),
    ensures
        more@.rules.len() == builder@.rules.len() + 1,
        more@.rules.last().link == link,
        more@.rules.last().occurrence == occurrence,
        more@.rules.last().effects == effects@,
        more@.seed == builder@.seed,
        schedule@.rules.contains(r) <==> more@.rules.contains(r),
        schedule@.rules.len() == more@.rules.len(),
        schedule@.seed == builder@.seed,
        schedule.wf(),
{
}

} // verus!
