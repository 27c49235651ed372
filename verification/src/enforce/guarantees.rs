//! What can be relied on of a run and of the routing that it programs, in terms
//! of what was shown and of how each command went.

use vstd::prelude::*;

use crate::api::v1alpha1;
use crate::api::v1alpha1::{ConfigFault, GatewayModel};
use crate::enforce;
use crate::enforce::route;
use crate::enforce::route::{CollisionModel, IpCmdModel};
use crate::enforce::run;
use crate::enforce::run::{ActionModel, EventModel, RunFault, RunModel, StageModel};
use crate::enforce::DesiredModel;
use crate::net;
use crate::plan::{EgressModel, GatewayPlanModel};
use crate::seqs;
use crate::text;

verus! {

// ---------------------------------------------------------------------------
// Steps of a run

/// A command that may not fail ends the run where it does: the run is failed,
/// and the error says which command it was and what it wrote.
pub proof fn failed_command_ends_the_run(r: RunModel, i: int, stderr: Seq<char>)
    requires
        r.stage == StageModel::Ip(i),
        r.ip is Ok,
        0 <= i < (r.ip->Ok_0).len(),
        !(r.ip->Ok_0)[i].ignore_fail,
    ensures
        run::after(r, EventModel::Exited { success: false, stderr }).stage == StageModel::Failed,
        run::next_stage(r, EventModel::Exited { success: false, stderr }) == Err::<
            StageModel,
            RunFault,
        >(
            RunFault::IpFailed {
                args: text::joined((r.ip->Ok_0)[i].args, " "@),
                stderr: text::trim_of(stderr),
            },
        ),
{
}

/// A command that succeeded, and one that may fail however it went, is followed
/// by the next one; after the last, the run is done. Nothing else is changed.
pub proof fn next_command_follows(r: RunModel, i: int, success: bool, stderr: Seq<char>)
    requires
        r.stage == StageModel::Ip(i),
        r.ip is Ok,
        0 <= i < (r.ip->Ok_0).len(),
        success || (r.ip->Ok_0)[i].ignore_fail,
    ensures
        ({
            let after = run::after(r, EventModel::Exited { success, stderr });
            &&& run::next_stage(r, EventModel::Exited { success, stderr }) is Ok
            &&& i + 1 < (r.ip->Ok_0).len() ==> after.stage == StageModel::Ip(i + 1)
            &&& i + 1 == (r.ip->Ok_0).len() ==> after.stage == StageModel::Done
        }),
{
}

/// A run comes to its end from a command only where that was the last one and
/// it succeeded or was allowed to fail.
pub proof fn done_after_a_command(r: RunModel, event: EventModel)
    requires
        r.stage is Ip,
        run::after(r, event).stage is Done,
    ensures
        event is Exited,
        r.ip is Ok,
        r.stage->Ip_0 == (r.ip->Ok_0).len() - 1,
        event->success || (r.ip->Ok_0)[r.stage->Ip_0].ignore_fail,
{
}

/// A command that could not be run ends the run, also one that may fail.
pub proof fn command_that_was_not_run(r: RunModel, i: int, reason: Seq<char>)
    requires
        r.stage == StageModel::Ip(i),
        r.ip is Ok,
        0 <= i < (r.ip->Ok_0).len(),
    ensures
        run::after(r, EventModel::NotRun(reason)).stage == StageModel::Failed,
        run::next_stage(r, EventModel::NotRun(reason)) == Err::<StageModel, RunFault>(
            RunFault::IpNotRun { args: text::joined((r.ip->Ok_0)[i].args, " "@), reason },
        ),
{
}

/// No command is run before the script was taken. A script that was rejected or
/// not run ends the run, and so do commands that could not be built.
pub proof fn script_goes_first(r: RunModel, stderr: Seq<char>, reason: Seq<char>)
    requires
        r.stage == StageModel::Nft,
    ensures
        ({
            let taken = EventModel::Exited { success: true, stderr };
            let rejected = EventModel::Exited { success: false, stderr };
            let not_run = EventModel::NotRun(reason);
            &&& run::after(r, rejected).stage == StageModel::Failed
            &&& run::next_stage(r, rejected) == Err::<StageModel, RunFault>(
                RunFault::Rejected(text::trim_of(stderr)),
            )
            &&& run::after(r, not_run).stage == StageModel::Failed
            &&& run::next_stage(r, not_run) == Err::<StageModel, RunFault>(
                RunFault::NftNotRun(reason),
            )
            &&& r.ip is Err ==> run::after(r, taken).stage == StageModel::Failed && run::next_stage(
                r,
                taken,
            ) == Err::<StageModel, RunFault>(RunFault::Config(r.ip->Err_0))
            &&& r.ip is Ok && (r.ip->Ok_0).len() > 0 ==> run::after(r, taken).stage
                == StageModel::Ip(0)
            &&& r.ip is Ok && (r.ip->Ok_0).len() == 0 ==> run::after(r, taken).stage
                == StageModel::Done
            &&& r.ip is Ok ==> run::next_stage(r, taken) is Ok
        }),
{
}

/// The tables are checked one after the other against the rules that were shown;
/// only after the last one is the script run. A collision ends the run.
pub proof fn tables_are_checked_in_order(
    r: RunModel,
    rules: Seq<char>,
    i: int,
    routes: Seq<char>,
)
    requires
        r.stage == (StageModel::Routes { rules, free: i }),
        0 <= i < r.guards.len(),
    ensures
        ({
            let shown = EventModel::Shown(routes);
            let found = route::guard_collision(r.guards[i].0, r.guards[i].1, rules, routes);
            &&& found is Some ==> run::after(r, shown).stage == StageModel::Failed
                && run::next_stage(r, shown) == Err::<StageModel, RunFault>(
                RunFault::Collision(found->0),
            )
            &&& found is None ==> run::next_stage(r, shown) is Ok
            &&& found is None && i + 1 < r.guards.len() ==> run::after(r, shown).stage
                == (StageModel::Routes { rules, free: i + 1 })
            &&& found is None && i + 1 == r.guards.len() ==> run::after(r, shown).stage
                == StageModel::Nft
            &&& run::action_of(r) == Some(ActionModel::ShowRoutes(r.guards[i].1))
        }),
{
}

/// The rules are shown first; then the tables are checked from the first one on.
pub proof fn rules_are_shown_first(r: RunModel, rules: Seq<char>)
    requires
        r.stage == StageModel::Rules,
    ensures
        run::action_of(r) == Some(ActionModel::ShowRules),
        run::next_stage(r, EventModel::Shown(rules)) is Ok,
        r.guards.len() > 0 ==> run::after(r, EventModel::Shown(rules)).stage
            == (StageModel::Routes { rules, free: 0 }),
        r.guards.len() == 0 ==> run::after(r, EventModel::Shown(rules)).stage == StageModel::Nft,
{
}

/// What is logged is logged once, and nothing follows.
pub proof fn logging_is_all(r: RunModel, s: Seq<char>)
    requires
        r.stage == StageModel::Log(s),
    ensures
        run::action_of(r) == Some(ActionModel::Log(s)),
        run::after(r, EventModel::Logged).stage == StageModel::Done,
        run::next_stage(r, EventModel::Logged) is Ok,
{
}

/// Whether an event answers what a run wants done.
pub open spec fn answers(event: EventModel, action: ActionModel) -> bool {
    match action {
        ActionModel::Log(_) => event is Logged,
        ActionModel::ShowRules => event is Shown,
        ActionModel::ShowRoutes(_) => event is Shown,
        ActionModel::Nft(_) => event is Exited || event is NotRun,
        ActionModel::Ip(_) => event is Exited || event is NotRun,
    }
}

/// An event that does not answer what was to be done changes nothing, and none
/// ever changes what is programmed.
pub proof fn only_answers_count(r: RunModel, event: EventModel)
    ensures
        run::action_of(r) is None ==> run::after(r, event) == r && run::next_stage(r, event) is Ok,
        run::action_of(r) is Some && !answers(event, run::action_of(r)->0) ==> run::after(r, event)
            == r && run::next_stage(r, event) is Ok,
        run::after(r, event).guards == r.guards,
        run::after(r, event).nft == r.nft,
        run::after(r, event).ip == r.ip,
        run::next_stage(r, event) is Err <==> run::after(r, event).stage is Failed && !(
        r.stage is Failed),
{
}

/// The script that is run is the run's own, and each command is the one whose
/// turn it is. Nothing is done once a run is over.
pub proof fn what_is_done(r: RunModel)
    ensures
        r.stage is Nft ==> run::action_of(r) == Some(ActionModel::Nft(r.nft)),
        r.stage is Ip && r.ip is Ok && 0 <= r.stage->Ip_0 < (r.ip->Ok_0).len() ==> run::action_of(r)
            == Some(ActionModel::Ip((r.ip->Ok_0)[r.stage->Ip_0])),
        r.stage is Done ==> run::action_of(r) is None,
        r.stage is Failed ==> run::action_of(r) is None,
{
}

/// How the three runs start. Only the one that programs the host checks it; only
/// a dry one logs; removing starts with the script.
pub proof fn how_runs_start(d: DesiredModel, gs: Seq<GatewayModel>)
    ensures
        run::system_run(d).stage == StageModel::Rules,
        run::system_run(d).guards == d.guards,
        run::system_run(d).nft == d.nft,
        run::system_run(d).ip == Ok::<Seq<IpCmdModel>, ConfigFault>(d.ip),
        run::dry_run(d).stage == StageModel::Log(
            "dry-run — would apply:\n"@ + enforce::desired_text(d),
        ),
        run::down_run(gs).stage == StageModel::Nft,
        run::down_run(gs).nft == "add table inet degc\ndelete table inet degc\n"@,
        run::down_run(gs).ip == route::teardown_of(gs),
{
}

/// What is said of each failure.
pub proof fn what_failures_say(a: Seq<char>, b: Seq<char>, cause: Seq<char>)
    ensures
        run::run_text(RunFault::Rejected(a), cause) == "nft -f rejected the ruleset: "@ + a,
        run::run_text(RunFault::NftNotRun(a), cause) == a,
        run::run_text(RunFault::IpFailed { args: a, stderr: b }, cause) == "`ip "@ + a
            + "` failed: "@ + b,
        run::run_text(RunFault::IpNotRun { args: a, reason: b }, cause) == "spawning `ip "@ + a
            + "` (is iproute2 installed?): "@ + b,
{
}

/// A collision, and a configuration that is not in order, say what is wrong in
/// their own words.
pub proof fn what_causes_say(c: CollisionModel, f: ConfigFault)
    ensures
        run::run_text(RunFault::Collision(c), run::cause_text(RunFault::Collision(c)))
            == route::collision_text(c, text::debug_text(route::collision_quote(c))),
        run::run_text(RunFault::Config(f), run::cause_text(RunFault::Config(f)))
            == v1alpha1::error::fault_text(f),
{
}

// ---------------------------------------------------------------------------
// What is on the host already

/// Whether `w` occurs among the words, and `x` is the word after its first
/// occurrence.
pub open spec fn says(toks: Seq<Seq<char>>, w: Seq<char>, x: Seq<char>) -> bool {
    exists|i: int|
        0 <= i && i + 1 < toks.len() && #[trigger] toks[i] == w && toks[i + 1] == x && (forall|
            j: int,
        |
            0 <= j < i ==> #[trigger] toks[j] != w)
}

/// Whether a word is the mark, or the mark and a mask.
pub open spec fn is_mark(x: Seq<char>, mark: Seq<char>) -> bool {
    x == mark || (x.len() > mark.len() && x.take(mark.len() as int) == mark && x[mark.len() as int]
        == '/')
}

proof fn lemma_says(toks: Seq<Seq<char>>, w: Seq<char>, x: Seq<char>)
    ensures
        says(toks, w, x) <==> route::word_after(toks, w) == Some(x),
{
    let p = route::is_word(w);
    seqs::lemma_first_where(toks, p);
    if says(toks, w, x) {
        let i = choose|i: int|
            0 <= i && i + 1 < toks.len() && #[trigger] toks[i] == w && toks[i + 1] == x && (forall|
                j: int,
            |
                0 <= j < i ==> #[trigger] toks[j] != w);
        assert(p(toks[i]));
        assert forall|j: int| 0 <= j < i implies !p(#[trigger] toks[j]) by {}
        seqs::lemma_first_is(toks, p, i);
    }
    if route::word_after(toks, w) == Some(x) {
        let i = seqs::first_where(toks, p)->0;
        assert(p(toks[i]));
        assert forall|j: int| 0 <= j < i implies #[trigger] toks[j] != w by {
            assert(!p(toks[j]));
        }
    }
}

proof fn lemma_is_mark(x: Seq<char>, mark: Seq<char>)
    requires
        !mark.contains('/'),
    ensures
        text::pieces(x, '/')[0] == mark <==> is_mark(x, mark),
{
    let i = text::position_of(x, '/') as int;
    text::lemma_position_absent(x, '/');
    text::lemma_position_found(x, '/');
    text::first_piece(x, '/', i);
    if is_mark(x, mark) {
        if x == mark {
            assert(i == x.len());
            assert(x.take(i) =~= x);
        } else {
            let n = mark.len() as int;
            if i < n {
                assert(mark[i] == x[i]);
                assert(mark.contains('/'));
            }
            assert(i == n);
        }
    }
    if x.take(i) == mark {
        assert(mark.len() == i);
        if i == x.len() {
            assert(x.take(i) =~= x);
        }
    }
}

/// A rule for the gateway's mark, whatever its mask, that looks up no table or
/// another table than the gateway's is always found; and what is found is such a
/// rule, the first one.
pub proof fn every_conflicting_rule_is_found(
    rules: Seq<char>,
    mark: Seq<char>,
    table: Seq<char>,
    i: int,
    x: Seq<char>,
)
    requires
        !mark.contains('/'),
    ensures
        ({
            let ls = text::lines_of(rules);
            let found = route::conflicting_rule_of(rules, mark, table);
            &&& 0 <= i < ls.len() && says(text::words_of(ls[i]), "fwmark"@, x) && is_mark(x, mark)
                && !says(text::words_of(ls[i]), "lookup"@, table) ==> found is Some
            &&& found is Some ==> exists|k: int, y: Seq<char>|
                0 <= k < ls.len() && found == Some(text::trim_of(ls[k])) && #[trigger] says(
                    text::words_of(ls[k]),
                    "fwmark"@,
                    y,
                ) && is_mark(y, mark) && !says(text::words_of(ls[k]), "lookup"@, table)
        }),
{
    let ls = text::lines_of(rules);
    let p = route::is_conflict(mark, table);
    seqs::lemma_first_where(ls, p);
    if 0 <= i < ls.len() && says(text::words_of(ls[i]), "fwmark"@, x) && is_mark(x, mark) && !says(
        text::words_of(ls[i]),
        "lookup"@,
        table,
    ) {
        lemma_says(text::words_of(ls[i]), "fwmark"@, x);
        lemma_says(text::words_of(ls[i]), "lookup"@, table);
        lemma_is_mark(x, mark);
        assert(p(ls[i]));
    }
    if route::conflicting_rule_of(rules, mark, table) is Some {
        let k = seqs::first_where(ls, p)->0;
        assert(p(ls[k]));
        let toks = text::words_of(ls[k]);
        let y = route::word_after(toks, "fwmark"@)->0;
        lemma_says(toks, "fwmark"@, y);
        lemma_says(toks, "lookup"@, table);
        lemma_is_mark(y, mark);
        assert(says(text::words_of(ls[k]), "fwmark"@, y));
    }
}

/// The rule that is reported is the first that conflicts: the line, without the
/// white space around it.
pub proof fn first_conflicting_rule_is_named(
    rules: Seq<char>,
    mark: Seq<char>,
    table: Seq<char>,
    i: int,
    x: Seq<char>,
)
    requires
        !mark.contains('/'),
        0 <= i < text::lines_of(rules).len(),
        says(text::words_of(text::lines_of(rules)[i]), "fwmark"@, x),
        is_mark(x, mark),
        !says(text::words_of(text::lines_of(rules)[i]), "lookup"@, table),
        forall|j: int, y: Seq<char>|
            0 <= j < i && #[trigger] says(
                text::words_of(text::lines_of(rules)[j]),
                "fwmark"@,
                y,
            ) && is_mark(y, mark) ==> says(
                text::words_of(text::lines_of(rules)[j]),
                "lookup"@,
                table,
            ),
    ensures
        route::conflicting_rule_of(rules, mark, table) == Some(
            text::trim_of(text::lines_of(rules)[i]),
        ),
{
    let ls = text::lines_of(rules);
    let p = route::is_conflict(mark, table);
    lemma_says(text::words_of(ls[i]), "fwmark"@, x);
    lemma_says(text::words_of(ls[i]), "lookup"@, table);
    lemma_is_mark(x, mark);
    assert(p(ls[i]));
    assert forall|j: int| 0 <= j < i implies !p(#[trigger] ls[j]) by {
        if p(ls[j]) {
            let toks = text::words_of(ls[j]);
            let y = route::word_after(toks, "fwmark"@)->0;
            lemma_says(toks, "fwmark"@, y);
            lemma_says(toks, "lookup"@, table);
            lemma_is_mark(y, mark);
            assert(says(text::words_of(ls[j]), "fwmark"@, y));
        }
    }
    seqs::lemma_first_is(ls, p, i);
}

/// A line of the routes that is not blank and does not carry the tag is always
/// found, and what is found is the first such line.
pub proof fn every_foreign_route_is_found(routes: Seq<char>, i: int)
    ensures
        ({
            let ls = text::lines_of(routes);
            let found = route::foreign_route_of(routes);
            let foreign = |line: Seq<char>|
                text::trim_of(line).len() > 0 && !text::has_part(
                    text::trim_of(line),
                    "proto 194"@,
                );
            &&& 0 <= i < ls.len() && foreign(ls[i]) ==> found is Some
            &&& 0 <= i < ls.len() && foreign(ls[i]) && (forall|j: int|
                0 <= j < i ==> !foreign(#[trigger] ls[j])) ==> found == Some(text::trim_of(ls[i]))
            &&& (forall|j: int| 0 <= j < ls.len() ==> !foreign(#[trigger] ls[j])) ==> found is None
        }),
{
    let ls = text::lines_of(routes);
    let ts = route::trimmed_lines(routes);
    let p = route::is_foreign();
    let foreign = |line: Seq<char>|
        text::trim_of(line).len() > 0 && !text::has_part(text::trim_of(line), "proto 194"@);
    assert("proto "@ + "194"@ =~= "proto 194"@) by {
        reveal_strlit("proto ");
        reveal_strlit("194");
        reveal_strlit("proto 194");
    }
    assert(ts.len() == ls.len());
    assert forall|j: int| 0 <= j < ls.len() implies p(#[trigger] ts[j]) == foreign(ls[j]) by {}
    seqs::lemma_first_where(ts, p);
    if 0 <= i < ls.len() && foreign(ls[i]) {
        assert(p(ts[i]));
        if forall|j: int| 0 <= j < i ==> !foreign(#[trigger] ls[j]) {
            assert forall|j: int| 0 <= j < i implies !p(#[trigger] ts[j]) by {
                assert(!foreign(ls[j]));
            }
            seqs::lemma_first_is(ts, p, i);
        }
    }
    if forall|j: int| 0 <= j < ls.len() ==> !foreign(#[trigger] ls[j]) {
        assert forall|j: int| 0 <= j < ts.len() implies !p(#[trigger] ts[j]) by {
            assert(!foreign(ls[j]));
        }
        seqs::lemma_first_none(ts, p);
    }
}

/// A gateway's table and mark are free where there is neither a route of someone
/// else nor a rule of someone else; otherwise it is said what collides, the
/// route before the rule.
pub proof fn what_collides(mark: Seq<char>, table: u32, rules: Seq<char>, routes: Seq<char>)
    ensures
        ({
            let found = route::guard_collision(mark, table, rules, routes);
            let a = route::foreign_route_of(routes);
            let b = route::conflicting_rule_of(rules, mark, text::decimal_text(table as nat));
            &&& found is None <==> a is None && b is None
            &&& a is Some ==> found == Some(CollisionModel::Table { table, route: a->0 })
            &&& a is None && b is Some ==> found == Some(CollisionModel::Mark { mark, rule: b->0 })
        }),
{
}

/// One more guard: the first collision stays the first.
pub proof fn one_more_guard(
    guards: Seq<(Seq<char>, u32)>,
    rules: Seq<char>,
    routes: Seq<Seq<char>>,
    g: (Seq<char>, u32),
)
    ensures
        route::preflight_collision(Seq::empty(), rules, routes) is None,
        ({
            let before = route::preflight_collision(guards, rules, routes);
            let after = route::preflight_collision(guards.push(g), rules, routes);
            let n = guards.len() as int;
            &&& before is Some ==> after == before
            &&& before is None && n < routes.len() ==> after == route::guard_collision(
                g.0,
                g.1,
                rules,
                routes[n],
            )
            &&& before is None && n >= routes.len() ==> after == route::guard_collision(
                g.0,
                g.1,
                rules,
                Seq::empty(),
            )
        }),
{
    assert(guards.push(g).drop_last() =~= guards);
}

/// What is said of a collision.
pub proof fn what_collisions_say(table: u32, a: Seq<char>, b: Seq<char>, quote: Seq<char>)
    ensures
        route::collision_text(CollisionModel::Table { table, route: a }, quote)
            == "routing table "@ + text::decimal_text(table as nat)
            + " already holds a non-degc route ("@ + quote
            + "); refusing to touch it — set a free `table` for this gateway"@,
        route::collision_text(CollisionModel::Mark { mark: a, rule: b }, quote) == "fwmark "@ + a
            + " is already routed elsewhere ("@ + quote
            + "); set a free `mark` for this gateway"@,
        route::collision_quote(CollisionModel::Table { table, route: a }) == a,
        route::collision_quote(CollisionModel::Mark { mark: a, rule: b }) == b,
{
}

// ---------------------------------------------------------------------------
// The commands

/// The floor is a blackhole with the tag, of a metric that every live default
/// beats. It may not fail.
pub proof fn floor_command(t: Seq<char>)
    ensures
        route::floor_cmd(t).args == seq![
            "route"@,
            "replace"@,
            "blackhole"@,
            "default"@,
            "table"@,
            t,
            "proto"@,
            "194"@,
            "metric"@,
            "9999"@,
        ],
        !route::floor_cmd(t).ignore_fail,
{
}

/// The rule sends the mark to the table, at a fixed priority. It may be there
/// already.
pub proof fn divert_command(m: Seq<char>, t: Seq<char>)
    ensures
        route::divert_cmd(m, t).args == seq![
            "rule"@,
            "add"@,
            "fwmark"@,
            m,
            "table"@,
            t,
            "priority"@,
            "100"@,
        ],
        route::divert_cmd(m, t).ignore_fail,
{
}

/// The live default goes by the interface or by the next hop, with the tag, and
/// may not fail. Where the egress is unavailable it is removed, and may be gone
/// already.
pub proof fn live_command(
    name: Seq<char>,
    ip: crate::net::IpAddr,
    why: Seq<char>,
    hop: Seq<char>,
    t: Seq<char>,
)
    ensures
        route::live_cmd(EgressModel::Interface(name), hop, t).args == seq![
            "route"@,
            "replace"@,
            "default"@,
            "dev"@,
            name,
            "table"@,
            t,
            "proto"@,
            "194"@,
            "metric"@,
            "1"@,
        ],
        !route::live_cmd(EgressModel::Interface(name), hop, t).ignore_fail,
        route::live_cmd(EgressModel::NextHop(ip), hop, t).args == seq![
            "route"@,
            "replace"@,
            "default"@,
            "via"@,
            hop,
            "table"@,
            t,
            "proto"@,
            "194"@,
            "metric"@,
            "1"@,
        ],
        !route::live_cmd(EgressModel::NextHop(ip), hop, t).ignore_fail,
        route::live_cmd(EgressModel::Unavailable(why), hop, t).args == seq![
            "route"@,
            "del"@,
            "default"@,
            "table"@,
            t,
            "proto"@,
            "194"@,
            "metric"@,
            "1"@,
        ],
        route::live_cmd(EgressModel::Unavailable(why), hop, t).ignore_fail,
{
}

/// What is removed: the rule for the mark and the table, and the routes of the
/// table that carry the tag. Both may be gone already.
pub proof fn removal_commands(m: Seq<char>, t: Seq<char>)
    ensures
        route::undivert_cmd(m, t).args == seq!["rule"@, "del"@, "fwmark"@, m, "table"@, t],
        route::undivert_cmd(m, t).ignore_fail,
        route::flush_cmd(t).args == seq!["route"@, "flush"@, "table"@, t, "proto"@, "194"@],
        route::flush_cmd(t).ignore_fail,
{
}

/// One more gateway adds three commands at the end: its floor, its rule and its
/// live default, with its mark in hexadecimal, its table in decimal and the
/// address of its next hop. A mark that cannot be read is reported, unless an
/// earlier one was.
pub proof fn one_more_gateway_is_built(gps: Seq<GatewayPlanModel>, gp: GatewayPlanModel)
    ensures
        route::build_of(Seq::empty()) == Ok::<Seq<IpCmdModel>, ConfigFault>(Seq::empty()),
        ({
            let before = route::build_of(gps);
            let after = route::build_of(gps.push(gp));
            let mark = v1alpha1::mark_of(gp.gateway);
            let m = text::hex_text(mark->0 as nat);
            let t = text::decimal_text(v1alpha1::table_of(gp.gateway) as nat);
            &&& before is Err ==> after == before
            &&& before is Ok && mark is None ==> after == Err::<Seq<IpCmdModel>, ConfigFault>(
                ConfigFault::BadMark { gateway: gp.gateway.name, mark: gp.gateway.mark->0 },
            )
            &&& before is Ok && mark is Some ==> after is Ok && {
                let live = match gp.egress {
                    EgressModel::NextHop(ip) => route::live_cmd(gp.egress, net::ip_text(ip), t),
                    _ => route::live_cmd(gp.egress, Seq::empty(), t),
                };
                after->Ok_0 == before->Ok_0.push(route::floor_cmd(t)).push(
                    route::divert_cmd(m, t),
                ).push(live)
            }
        }),
{
    assert(gps.push(gp).drop_last() =~= gps);
    if route::build_of(gps) is Ok && v1alpha1::mark_of(gp.gateway) is Some {
        let before = route::build_of(gps)->Ok_0;
        let mark = v1alpha1::mark_of(gp.gateway)->0;
        let table = v1alpha1::table_of(gp.gateway);
        let t = text::decimal_text(table as nat);
        let m = text::hex_text(mark as nat);
        let hop = route::hop_text(gp.egress);
        assert(before + route::gateway_cmds(mark, table, gp.egress, hop) =~= before.push(
            route::floor_cmd(t),
        ).push(route::divert_cmd(m, t)).push(route::live_cmd(gp.egress, hop, t)));
    }
}

/// One more gateway adds two commands for its removal at the end: for its rule,
/// then for its routes.
pub proof fn one_more_gateway_is_removed(gs: Seq<GatewayModel>, g: GatewayModel)
    ensures
        route::teardown_of(Seq::empty()) == Ok::<Seq<IpCmdModel>, ConfigFault>(Seq::empty()),
        ({
            let before = route::teardown_of(gs);
            let after = route::teardown_of(gs.push(g));
            let mark = v1alpha1::mark_of(g);
            let m = text::hex_text(mark->0 as nat);
            let t = text::decimal_text(v1alpha1::table_of(g) as nat);
            &&& before is Err ==> after == before
            &&& before is Ok && mark is None ==> after == Err::<Seq<IpCmdModel>, ConfigFault>(
                ConfigFault::BadMark { gateway: g.name, mark: g.mark->0 },
            )
            &&& before is Ok && mark is Some ==> after is Ok && after->Ok_0 == before->Ok_0.push(
                route::undivert_cmd(m, t),
            ).push(route::flush_cmd(t))
        }),
{
    assert(gs.push(g).drop_last() =~= gs);
    if route::teardown_of(gs) is Ok && v1alpha1::mark_of(g) is Some {
        let before = route::teardown_of(gs)->Ok_0;
        let mark = v1alpha1::mark_of(g)->0;
        let table = v1alpha1::table_of(g);
        let t = text::decimal_text(table as nat);
        let m = text::hex_text(mark as nat);
        assert(before + route::removal_cmds(mark, table) =~= before.push(
            route::undivert_cmd(m, t),
        ).push(route::flush_cmd(t)));
    }
}

// ---------------------------------------------------------------------------
// Refusing

/// A run that finds a rule of someone else for a gateway's mark, whatever the
/// mask, that does not look up the gateway's table, fails before anything is
/// programmed.
pub proof fn someone_elses_rule_stops_the_run(
    r: RunModel,
    rules: Seq<char>,
    i: int,
    routes: Seq<char>,
    mark: u32,
    k: int,
    x: Seq<char>,
)
    requires
        r.stage == (StageModel::Routes { rules, free: i }),
        0 <= i < r.guards.len(),
        r.guards[i].0 == text::hex_text(mark as nat),
        0 <= k < text::lines_of(rules).len(),
        says(text::words_of(text::lines_of(rules)[k]), "fwmark"@, x),
        is_mark(x, text::hex_text(mark as nat)),
        !says(
            text::words_of(text::lines_of(rules)[k]),
            "lookup"@,
            text::decimal_text(r.guards[i].1 as nat),
        ),
    ensures
        run::after(r, EventModel::Shown(routes)).stage == StageModel::Failed,
        run::next_stage(r, EventModel::Shown(routes)) is Err,
        run::next_stage(r, EventModel::Shown(routes))->Err_0 is Collision,
{
    let m = text::hex_text(mark as nat);
    let t = text::decimal_text(r.guards[i].1 as nat);
    text::hex_has_no_slash(mark as nat);
    every_conflicting_rule_is_found(rules, m, t, k, x);
    what_collides(m, r.guards[i].1, rules, routes);
    tables_are_checked_in_order(r, rules, i, routes);
}

/// A run that finds a route of someone else in a gateway's table fails before
/// anything is programmed.
pub proof fn someone_elses_route_stops_the_run(
    r: RunModel,
    rules: Seq<char>,
    i: int,
    routes: Seq<char>,
    k: int,
)
    requires
        r.stage == (StageModel::Routes { rules, free: i }),
        0 <= i < r.guards.len(),
        0 <= k < text::lines_of(routes).len(),
        text::trim_of(text::lines_of(routes)[k]).len() > 0,
        !text::has_part(text::trim_of(text::lines_of(routes)[k]), "proto 194"@),
    ensures
        run::after(r, EventModel::Shown(routes)).stage == StageModel::Failed,
        run::next_stage(r, EventModel::Shown(routes)) is Err,
        run::next_stage(r, EventModel::Shown(routes))->Err_0 is Collision,
{
    every_foreign_route_is_found(routes, k);
    what_collides(r.guards[i].0, r.guards[i].1, rules, routes);
    tables_are_checked_in_order(r, rules, i, routes);
}

/// The backend that programs the host checks it first, for every mark and table
/// of the state; the one for a dry run only logs. Each is called by its own name.
pub proof fn backends_differ(d: DesiredModel, b: enforce::Backend)
    ensures
        b is System ==> {
            let r = enforce::Enforcer::run_of(&b, d);
            r.stage == StageModel::Rules && r.guards == d.guards && r.nft == d.nft && r.ip == Ok::<
                Seq<IpCmdModel>,
                ConfigFault,
            >(d.ip)
        },
        b is DryRun ==> enforce::Enforcer::run_of(&b, d).stage == StageModel::Log(
            "dry-run — would apply:\n"@ + enforce::desired_text(d),
        ),
        b is System ==> enforce::Enforcer::label_of(&b) == "system (nft + ip)"@,
        b is DryRun ==> enforce::Enforcer::label_of(&b) == "dry-run"@,
{
}

} // verus!
