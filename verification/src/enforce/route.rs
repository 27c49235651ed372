//! Policy routing: the `ip` commands that route each gateway's marked traffic
//! onto its egress, and what must hold of the host before they are run.
//!
//! Each gateway has a routing table with a blackhole default, so marked
//! traffic that finds no live default there is dropped.

use vstd::prelude::*;

use crate::api::v1alpha1;
use crate::api::v1alpha1::{ConfigError, ConfigFault, Gateways};
use crate::net;
use crate::plan::{Egress, EgressModel, GatewayPlanModel, Plan};
use crate::seqs;
use crate::text;
use crate::text::{
    contains_text, copy_texts, decimal, hex, lines, quoted, same, same_optional, split_on, trim,
    words,
};

verus! {

/// The protocol tag on every route that is installed. Only routes with this tag
/// are ever removed. It lies outside the numbers that the system and routing
/// daemons use.
pub const RT_PROTO: &'static str = "194";

/// The priority of the rules that divert marked traffic. It is fixed, and lower
/// than that of the main table, whatever the routing table's number.
pub const RULE_PRIORITY: &'static str = "100";

/// One run of `ip`.
#[derive(Debug, PartialEq, Eq)]
pub struct IpCmd {
    /// The arguments.
    pub args: Vec<String>,
    /// Whether the command may fail, as where it removes what is not there.
    pub ignore_fail: bool,
}

/// The model of an [`IpCmd`].
pub struct IpCmdModel {
    /// See [`IpCmd::args`].
    pub args: Seq<Seq<char>>,
    /// See [`IpCmd::ignore_fail`].
    pub ignore_fail: bool,
}

impl View for IpCmd {
    type V = IpCmdModel;

    open spec fn view(&self) -> IpCmdModel {
        IpCmdModel { args: text::texts(self.args@), ignore_fail: self.ignore_fail }
    }
}

impl Clone for IpCmd {
    fn clone(&self) -> (r: Self)
        ensures
            r@ == self@,
    {
        IpCmd { args: copy_texts(&self.args), ignore_fail: self.ignore_fail }
    }
}

/// The contents of a list of borrowed texts.
pub open spec fn strs(v: Seq<&str>) -> Seq<Seq<char>> {
    v.map_values(|s: &str| s@)
}

impl IpCmd {
    /// A command with these arguments.
    pub fn new(args: Vec<&str>, ignore_fail: bool) -> (r: Self)
        ensures
            r@ == (IpCmdModel { args: strs(args@), ignore_fail }),
    {
        let mut owned: Vec<String> = Vec::new();
        for i in 0..args.len()
            invariant
                text::texts(owned@) == strs(args@).take(i as int),
        {
            let ghost before = text::texts(owned@);
            owned.push(args[i].to_owned());
            assert(text::texts(owned@) == before.push(strs(args@)[i as int]));
        }
        assert(strs(args@).take(args@.len() as int) == strs(args@));
        IpCmd { args: owned, ignore_fail }
    }
}

/// The models of a list of commands.
pub open spec fn cmds(v: Seq<IpCmd>) -> Seq<IpCmdModel> {
    v.map_values(|c: IpCmd| c@)
}

// ---------------------------------------------------------------------------
// Installing

/// The floor: a blackhole default. `replace` creates or updates it, so the
/// table is never empty.
pub open spec fn floor_cmd(table: Seq<char>) -> IpCmdModel {
    IpCmdModel {
        args: seq![
            "route"@,
            "replace"@,
            "blackhole"@,
            "default"@,
            "table"@,
            table,
            "proto"@,
            RT_PROTO@,
            "metric"@,
            "9999"@,
        ],
        ignore_fail: false,
    }
}

/// The rule that diverts marked traffic to the table. It may be there already.
pub open spec fn divert_cmd(mark: Seq<char>, table: Seq<char>) -> IpCmdModel {
    IpCmdModel {
        args: seq![
            "rule"@,
            "add"@,
            "fwmark"@,
            mark,
            "table"@,
            table,
            "priority"@,
            RULE_PRIORITY@,
        ],
        ignore_fail: true,
    }
}

/// The live default. Where the egress is unavailable it is removed instead, so
/// that only the floor stays. `hop` is the text of the next hop.
pub open spec fn live_cmd(egress: EgressModel, hop: Seq<char>, table: Seq<char>) -> IpCmdModel {
    match egress {
        EgressModel::Interface(name) => IpCmdModel {
            args: seq![
                "route"@,
                "replace"@,
                "default"@,
                "dev"@,
                name,
                "table"@,
                table,
                "proto"@,
                RT_PROTO@,
                "metric"@,
                "1"@,
            ],
            ignore_fail: false,
        },
        EgressModel::NextHop(_) => IpCmdModel {
            args: seq![
                "route"@,
                "replace"@,
                "default"@,
                "via"@,
                hop,
                "table"@,
                table,
                "proto"@,
                RT_PROTO@,
                "metric"@,
                "1"@,
            ],
            ignore_fail: false,
        },
        EgressModel::Unavailable(_) => IpCmdModel {
            args: seq![
                "route"@,
                "del"@,
                "default"@,
                "table"@,
                table,
                "proto"@,
                RT_PROTO@,
                "metric"@,
                "1"@,
            ],
            ignore_fail: true,
        },
    }
}

/// The text of an egress's next hop.
pub open spec fn hop_text(egress: EgressModel) -> Seq<char> {
    match egress {
        EgressModel::NextHop(ip) => net::ip_text(ip),
        _ => Seq::empty(),
    }
}

/// The commands for one gateway, the floor first.
pub open spec fn gateway_cmds(
    mark: u32,
    table: u32,
    egress: EgressModel,
    hop: Seq<char>,
) -> Seq<IpCmdModel> {
    let m = text::hex_text(mark as nat);
    let t = text::decimal_text(table as nat);
    seq![floor_cmd(t), divert_cmd(m, t), live_cmd(egress, hop, t)]
}

/// The commands for a plan's gateways, one after the other; or the first mark
/// that cannot be read.
pub open spec fn build_of(gps: Seq<GatewayPlanModel>) -> Result<Seq<IpCmdModel>, ConfigFault>
    decreases gps.len(),
{
    if gps.len() == 0 {
        Ok(Seq::empty())
    } else {
        let gp = gps.last();
        match build_of(gps.drop_last()) {
            Err(f) => Err(f),
            Ok(before) => match v1alpha1::mark_of(gp.gateway) {
                None => Err(
                    ConfigFault::BadMark { gateway: gp.gateway.name, mark: gp.gateway.mark->0 },
                ),
                Some(mark) => Ok(
                    before + gateway_cmds(
                        mark,
                        v1alpha1::table_of(gp.gateway),
                        gp.egress,
                        hop_text(gp.egress),
                    ),
                ),
            },
        }
    }
}

/// Builds the commands for one gateway, given the text of its next hop.
pub fn gateway_commands(mark: u32, table: u32, egress: &Egress, hop: &str) -> (r: Vec<IpCmd>)
    ensures
        cmds(r@) == gateway_cmds(mark, table, egress@, hop@),
{
    let m = hex(mark);
    let m = m.as_str();
    let t = decimal(table as u64);
    let t = t.as_str();
    let floor = IpCmd::new(
        vec!["route", "replace", "blackhole", "default", "table", t, "proto", RT_PROTO, "metric", "9999"],
        false,
    );
    assert(floor@.args =~= floor_cmd(t@).args);
    let divert = IpCmd::new(
        vec!["rule", "add", "fwmark", m, "table", t, "priority", RULE_PRIORITY],
        true,
    );
    assert(divert@.args =~= divert_cmd(m@, t@).args);
    let live = match egress {
        Egress::Interface(name) => IpCmd::new(
            vec![
                "route", "replace", "default", "dev", name.as_str(), "table", t, "proto", RT_PROTO,
                "metric", "1",
            ],
            false,
        ),
        Egress::NextHop(_) => IpCmd::new(
            vec![
                "route", "replace", "default", "via", hop, "table", t, "proto", RT_PROTO, "metric",
                "1",
            ],
            false,
        ),
        Egress::Unavailable(_) => IpCmd::new(
            vec!["route", "del", "default", "table", t, "proto", RT_PROTO, "metric", "1"],
            true,
        ),
    };
    assert(live@.args =~= live_cmd(egress@, hop@, t@).args);
    let r = vec![floor, divert, live];
    assert(cmds(r@) =~= gateway_cmds(mark, table, egress@, hop@));
    r
}

/// Appends commands to a list.
fn add_commands(list: &mut Vec<IpCmd>, more: Vec<IpCmd>)
    ensures
        cmds(final(list)@) == cmds(old(list)@) + cmds(more@),
{
    let mut more = more;
    let ghost before = list@;
    let ghost added = more@;
    list.append(&mut more);
    assert(cmds(list@) =~= cmds(before) + cmds(added));
}

/// A mark that cannot be read is the fault of the whole plan.
proof fn lemma_build_stops(gps: Seq<GatewayPlanModel>, n: int)
    requires
        0 <= n <= gps.len(),
        build_of(gps.take(n)) is Err,
    ensures
        build_of(gps) == build_of(gps.take(n)),
    decreases gps.len() - n,
{
    if n < gps.len() {
        assert(gps.take(n + 1).drop_last() == gps.take(n));
        lemma_build_stops(gps, n + 1);
    } else {
        assert(gps.take(n) == gps);
    }
}

/// Builds the commands for a whole plan, in the order in which they are to be
/// run.
pub fn build(plan: &Plan) -> (r: Result<Vec<IpCmd>, ConfigError>)
    ensures
        match (r, build_of(plan@.gateways)) {
            (Ok(v), Ok(want)) => cmds(v@) == want,
            (Err(e), Err(fault)) => e@ == fault,
            _ => false,
        },
{
    let ghost gps = plan@.gateways;
    let mut r: Vec<IpCmd> = Vec::new();
    for i in 0..plan.gateways.len()
        invariant
            gps == plan@.gateways,
            build_of(gps.take(i as int)) is Ok,
            build_of(gps.take(i as int))->Ok_0 == cmds(r@),
    {
        let gp = &plan.gateways[i];
        assert(gps.take(i + 1).drop_last() == gps.take(i as int));
        assert(gps.take(i + 1).last() == gp@);
        let mark = match gp.gateway.mark_value() {
            Ok(m) => m,
            Err(e) => {
                proof {
                    lemma_build_stops(gps, i + 1);
                }
                return Err(e);
            },
        };
        let hop = next_hop_text(&gp.egress);
        let more = gateway_commands(mark, gp.gateway.table_id(), &gp.egress, hop.as_str());
        add_commands(&mut r, more);
    }
    assert(gps.take(gps.len() as int) == gps);
    Ok(r)
}

/// The text of an egress's next hop.
fn next_hop_text(egress: &Egress) -> (r: String)
    ensures
        r@ == hop_text(egress@),
{
    match egress {
        Egress::NextHop(ip) => ip.to_text(),
        _ => String::new(),
    }
}

// ---------------------------------------------------------------------------
// Removing

/// What deletes the rule that diverts marked traffic to the table.
pub open spec fn undivert_cmd(mark: Seq<char>, table: Seq<char>) -> IpCmdModel {
    IpCmdModel {
        args: seq!["rule"@, "del"@, "fwmark"@, mark, "table"@, table],
        ignore_fail: true,
    }
}

/// What removes the routes of the table that carry the tag, and no others.
pub open spec fn flush_cmd(table: Seq<char>) -> IpCmdModel {
    IpCmdModel {
        args: seq!["route"@, "flush"@, "table"@, table, "proto"@, RT_PROTO@],
        ignore_fail: true,
    }
}

/// The commands that remove one gateway's policy routing: its rule, then the
/// routes of its table that carry the tag.
pub open spec fn removal_cmds(mark: u32, table: u32) -> Seq<IpCmdModel> {
    let m = text::hex_text(mark as nat);
    let t = text::decimal_text(table as nat);
    seq![undivert_cmd(m, t), flush_cmd(t)]
}

/// The commands that remove the policy routing of all gateways; or the first
/// mark that cannot be read.
pub open spec fn teardown_of(
    gs: Seq<v1alpha1::GatewayModel>,
) -> Result<Seq<IpCmdModel>, ConfigFault>
    decreases gs.len(),
{
    if gs.len() == 0 {
        Ok(Seq::empty())
    } else {
        let g = gs.last();
        match teardown_of(gs.drop_last()) {
            Err(f) => Err(f),
            Ok(before) => match v1alpha1::mark_of(g) {
                None => Err(ConfigFault::BadMark { gateway: g.name, mark: g.mark->0 }),
                Some(mark) => Ok(before + removal_cmds(mark, v1alpha1::table_of(g))),
            },
        }
    }
}

/// Builds the commands that remove one gateway's policy routing.
pub fn removal_commands(mark: u32, table: u32) -> (r: Vec<IpCmd>)
    ensures
        cmds(r@) == removal_cmds(mark, table),
{
    let m = hex(mark);
    let t = decimal(table as u64);
    let rule = IpCmd::new(vec!["rule", "del", "fwmark", m.as_str(), "table", t.as_str()], true);
    let routes = IpCmd::new(
        vec!["route", "flush", "table", t.as_str(), "proto", RT_PROTO],
        true,
    );
    assert(rule@.args =~= undivert_cmd(m@, t@).args);
    assert(routes@.args =~= flush_cmd(t@).args);
    let r = vec![rule, routes];
    assert(cmds(r@) =~= removal_cmds(mark, table));
    r
}

/// A mark that cannot be read is the fault of the whole list.
proof fn lemma_teardown_stops(gs: Seq<v1alpha1::GatewayModel>, n: int)
    requires
        0 <= n <= gs.len(),
        teardown_of(gs.take(n)) is Err,
    ensures
        teardown_of(gs) == teardown_of(gs.take(n)),
    decreases gs.len() - n,
{
    if n < gs.len() {
        assert(gs.take(n + 1).drop_last() == gs.take(n));
        lemma_teardown_stops(gs, n + 1);
    } else {
        assert(gs.take(n) == gs);
    }
}

/// Builds the commands that remove the policy routing of all gateways. Each may
/// fail, so they can be run whether or not anything is installed.
pub fn teardown(gateways: &Gateways) -> (r: Result<Vec<IpCmd>, ConfigError>)
    ensures
        match (r, teardown_of(gateways@)) {
            (Ok(v), Ok(want)) => cmds(v@) == want,
            (Err(e), Err(fault)) => e@ == fault,
            _ => false,
        },
{
    let ghost gs = gateways@;
    let mut r: Vec<IpCmd> = Vec::new();
    for i in 0..gateways.0.len()
        invariant
            gs == gateways@,
            teardown_of(gs.take(i as int)) is Ok,
            teardown_of(gs.take(i as int))->Ok_0 == cmds(r@),
    {
        let g = &gateways.0[i];
        assert(gs.take(i + 1).drop_last() == gs.take(i as int));
        assert(gs.take(i + 1).last() == g@);
        let mark = match g.mark_value() {
            Ok(m) => m,
            Err(e) => {
                proof {
                    lemma_teardown_stops(gs, i + 1);
                }
                return Err(e);
            },
        };
        let more = removal_commands(mark, g.table_id());
        add_commands(&mut r, more);
    }
    assert(gs.take(gs.len() as int) == gs);
    Ok(r)
}

// ---------------------------------------------------------------------------
// Before installing

/// The tag as it stands in a line of `ip route show`.
pub open spec fn route_tag() -> Seq<char> {
    "proto "@ + RT_PROTO@
}

/// Whether a line is a route of someone else: it is not blank and does not
/// carry the tag.
pub open spec fn is_foreign() -> spec_fn(Seq<char>) -> bool {
    |line: Seq<char>| line.len() > 0 && !text::has_part(line, route_tag())
}

/// The lines of a text, without white space around each.
pub open spec fn trimmed_lines(s: Seq<char>) -> Seq<Seq<char>> {
    text::lines_of(s).map_values(|line: Seq<char>| text::trim_of(line))
}

/// The first route of someone else among the lines of `ip route show`.
pub open spec fn foreign_route_of(routes: Seq<char>) -> Option<Seq<char>> {
    match seqs::first_where(trimmed_lines(routes), is_foreign()) {
        Some(i) => Some(trimmed_lines(routes)[i]),
        None => None,
    }
}

/// Finds the first route of someone else in what `ip route show` printed.
pub fn foreign_route(routes: &str) -> (r: Option<String>)
    ensures
        text::optional_text(r) == foreign_route_of(routes@),
{
    let ghost ls = trimmed_lines(routes@);
    let tag = "proto ".to_owned().concat(RT_PROTO);
    let all = lines(routes);
    for i in 0..all.len()
        invariant
            text::texts(all@) == text::lines_of(routes@),
            ls == trimmed_lines(routes@),
            tag@ == route_tag(),
            forall|k: int| 0 <= k < i ==> !is_foreign()(#[trigger] ls[k]),
    {
        let line = trim(all[i].as_str());
        assert(text::texts(all@)[i as int] == all@[i as int]@);
        assert(ls[i as int] == line@);
        if !line.as_str().is_empty() && !contains_text(line.as_str(), tag.as_str()) {
            assert(is_foreign()(ls[i as int]));
            proof {
                seqs::lemma_first_is(ls, is_foreign(), i as int);
            }
            return Some(line);
        }
    }
    assert(text::texts(all@).len() == all@.len());
    proof {
        seqs::lemma_first_none(ls, is_foreign());
    }
    None
}

/// Whether a word is `w`.
pub open spec fn is_word(w: Seq<char>) -> spec_fn(Seq<char>) -> bool {
    |t: Seq<char>| t == w
}

/// The word after the first `w`.
pub open spec fn word_after(toks: Seq<Seq<char>>, w: Seq<char>) -> Option<Seq<char>> {
    match seqs::first_where(toks, is_word(w)) {
        Some(i) => if i + 1 < toks.len() {
            Some(toks[i + 1])
        } else {
            None
        },
        None => None,
    }
}

/// The mark that a rule matches, without a mask.
pub open spec fn rule_mark(toks: Seq<Seq<char>>) -> Option<Seq<char>> {
    match word_after(toks, "fwmark"@) {
        Some(w) => Some(text::pieces(w, '/')[0]),
        None => None,
    }
}

/// Whether a line of `ip rule show` matches the mark but looks up another
/// table.
pub open spec fn is_conflict(mark: Seq<char>, table: Seq<char>) -> spec_fn(Seq<char>) -> bool {
    |line: Seq<char>|
        rule_mark(text::words_of(line)) == Some(mark) && word_after(
            text::words_of(line),
            "lookup"@,
        ) != Some(table)
}

/// The first rule that matches the mark but looks up another table.
pub open spec fn conflicting_rule_of(
    rules: Seq<char>,
    mark: Seq<char>,
    table: Seq<char>,
) -> Option<Seq<char>> {
    match seqs::first_where(text::lines_of(rules), is_conflict(mark, table)) {
        Some(i) => Some(text::trim_of(text::lines_of(rules)[i])),
        None => None,
    }
}

/// Finds the word after the first `w`.
fn find_word_after(toks: &Vec<String>, w: &str) -> (r: Option<String>)
    ensures
        text::optional_text(r) == word_after(text::texts(toks@), w@),
{
    let ghost ts = text::texts(toks@);
    for i in 0..toks.len()
        invariant
            ts == text::texts(toks@),
            forall|k: int| 0 <= k < i ==> !is_word(w@)(#[trigger] ts[k]),
    {
        assert(ts[i as int] == toks@[i as int]@);
        if same(toks[i].as_str(), w) {
            assert(is_word(w@)(ts[i as int]));
            proof {
                seqs::lemma_first_is(ts, is_word(w@), i as int);
            }
            if i + 1 < toks.len() {
                assert(ts[i + 1] == toks@[i + 1]@);
                return Some(toks[i + 1].clone());
            }
            return None;
        }
    }
    proof {
        seqs::lemma_first_none(ts, is_word(w@));
    }
    None
}

/// Finds the mark that a rule matches, without a mask.
fn find_rule_mark(toks: &Vec<String>) -> (r: Option<String>)
    ensures
        text::optional_text(r) == rule_mark(text::texts(toks@)),
{
    match find_word_after(toks, "fwmark") {
        Some(w) => {
            let parts = split_on(w.as_str(), '/');
            assert(text::texts(parts@)[0] == parts@[0]@);
            Some(parts[0].clone())
        },
        None => None,
    }
}

/// Finds the first rule that matches the mark but looks up another table in
/// what `ip rule show` printed. The rule that is installed here, of the same
/// mark and the same table, is not one.
pub fn conflicting_fwmark_rule(rules: &str, mark: &str, table: &str) -> (r: Option<String>)
    ensures
        text::optional_text(r) == conflicting_rule_of(rules@, mark@, table@),
{
    let ghost ls = text::lines_of(rules@);
    let all = lines(rules);
    for i in 0..all.len()
        invariant
            text::texts(all@) == ls,
            ls == text::lines_of(rules@),
            forall|k: int| 0 <= k < i ==> !is_conflict(mark@, table@)(#[trigger] ls[k]),
    {
        assert(ls[i as int] == all@[i as int]@);
        let toks = words(all[i].as_str());
        let of = find_rule_mark(&toks);
        let looked_up = find_word_after(&toks, "lookup");
        if same_optional(&of, mark) && !same_optional(&looked_up, table) {
            assert(is_conflict(mark@, table@)(ls[i as int]));
            proof {
                seqs::lemma_first_is(ls, is_conflict(mark@, table@), i as int);
            }
            return Some(trim(all[i].as_str()));
        }
    }
    assert(text::texts(all@).len() == all@.len());
    proof {
        seqs::lemma_first_none(ls, is_conflict(mark@, table@));
    }
    None
}

/// Why the host's routing must not be touched.
#[derive(Debug, PartialEq, Eq)]
pub enum Collision {
    /// A gateway's routing table holds a route of someone else.
    Table {
        /// The table.
        table: u32,
        /// The route.
        route: String,
    },
    /// A gateway's mark is routed to another table.
    Mark {
        /// The mark.
        mark: String,
        /// The rule.
        rule: String,
    },
}

/// The model of a [`Collision`].
pub enum CollisionModel {
    /// See [`Collision::Table`].
    Table {
        /// The table.
        table: u32,
        /// The route.
        route: Seq<char>,
    },
    /// See [`Collision::Mark`].
    Mark {
        /// The mark.
        mark: Seq<char>,
        /// The rule.
        rule: Seq<char>,
    },
}

impl View for Collision {
    type V = CollisionModel;

    open spec fn view(&self) -> CollisionModel {
        match self {
            Collision::Table { table, route } => CollisionModel::Table {
                table: *table,
                route: route@,
            },
            Collision::Mark { mark, rule } => CollisionModel::Mark { mark: mark@, rule: rule@ },
        }
    }
}

/// What is quoted in a collision's message.
pub open spec fn collision_quote(c: CollisionModel) -> Seq<char> {
    match c {
        CollisionModel::Table { route, .. } => route,
        CollisionModel::Mark { rule, .. } => rule,
    }
}

/// A collision's message, where `quote` is what is quoted.
pub open spec fn collision_text(c: CollisionModel, quote: Seq<char>) -> Seq<char> {
    match c {
        CollisionModel::Table { table, .. } => "routing table "@ + text::decimal_text(table as nat)
            + " already holds a non-degc route ("@ + quote
            + "); refusing to touch it — set a free `table` for this gateway"@,
        CollisionModel::Mark { mark, .. } => "fwmark "@ + mark + " is already routed elsewhere ("@
            + quote + "); set a free `mark` for this gateway"@,
    }
}

impl Collision {
    /// Says what collides, given the route or the rule as it is quoted.
    pub fn message_with(&self, quote: &str) -> (r: String)
        ensures
            r@ == collision_text(self@, quote@),
    {
        match self {
            Collision::Table { table, .. } => "routing table ".to_owned().concat(
                decimal(*table as u64).as_str(),
            ).concat(" already holds a non-degc route (").concat(quote).concat(
                "); refusing to touch it — set a free `table` for this gateway",
            ),
            Collision::Mark { mark, .. } => "fwmark ".to_owned().concat(mark.as_str()).concat(
                " is already routed elsewhere (",
            ).concat(quote).concat("); set a free `mark` for this gateway"),
        }
    }

    /// Says what collides.
    pub fn message(&self) -> (r: String)
        ensures
            r@ == collision_text(self@, text::debug_text(collision_quote(self@))),
    {
        let quote = match self {
            Collision::Table { route, .. } => quoted(route.as_str()),
            Collision::Mark { rule, .. } => quoted(rule.as_str()),
        };
        self.message_with(quote.as_str())
    }
}

/// What collides with one gateway: a route of someone else in its table, or a
/// rule of someone else for its mark.
pub open spec fn guard_collision(
    mark: Seq<char>,
    table: u32,
    rules: Seq<char>,
    routes: Seq<char>,
) -> Option<CollisionModel> {
    match foreign_route_of(routes) {
        Some(route) => Some(CollisionModel::Table { table, route }),
        None => match conflicting_rule_of(rules, mark, text::decimal_text(table as nat)) {
            Some(rule) => Some(CollisionModel::Mark { mark, rule }),
            None => None,
        },
    }
}

/// Checks one gateway's mark and table against the rules and the routes of that
/// table.
pub fn check_guard(mark: &str, table: u32, rules: &str, routes: &str) -> (r: Result<(), Collision>)
    ensures
        match r {
            Ok(_) => guard_collision(mark@, table, rules@, routes@) is None,
            Err(c) => guard_collision(mark@, table, rules@, routes@) == Some(c@),
        },
{
    if let Some(route) = foreign_route(routes) {
        return Err(Collision::Table { table, route });
    }
    let t = decimal(table as u64);
    if let Some(rule) = conflicting_fwmark_rule(rules, mark, t.as_str()) {
        return Err(Collision::Mark { mark: mark.to_owned(), rule });
    }
    Ok(())
}

/// The marks and tables of a list of guards.
pub open spec fn guards_of(v: Seq<(String, u32)>) -> Seq<(Seq<char>, u32)> {
    v.map_values(|g: (String, u32)| (g.0@, g.1))
}

/// What was printed of the `i`th table: nothing, where there is nothing.
pub open spec fn listing(routes: Seq<Seq<char>>, i: int) -> Seq<char> {
    if i < routes.len() {
        routes[i]
    } else {
        Seq::empty()
    }
}

/// The first collision of a list of guards.
pub open spec fn preflight_collision(
    guards: Seq<(Seq<char>, u32)>,
    rules: Seq<char>,
    routes: Seq<Seq<char>>,
) -> Option<CollisionModel>
    decreases guards.len(),
{
    if guards.len() == 0 {
        None
    } else {
        match preflight_collision(guards.drop_last(), rules, routes) {
            Some(c) => Some(c),
            None => guard_collision(
                guards.last().0,
                guards.last().1,
                rules,
                listing(routes, guards.len() - 1),
            ),
        }
    }
}

/// A collision of the first guards is the collision of all.
proof fn lemma_preflight_stops(
    guards: Seq<(Seq<char>, u32)>,
    rules: Seq<char>,
    routes: Seq<Seq<char>>,
    n: int,
)
    requires
        0 <= n <= guards.len(),
        preflight_collision(guards.take(n), rules, routes) is Some,
    ensures
        preflight_collision(guards, rules, routes) == preflight_collision(
            guards.take(n),
            rules,
            routes,
        ),
    decreases guards.len() - n,
{
    if n < guards.len() {
        assert(guards.take(n + 1).drop_last() == guards.take(n));
        lemma_preflight_stops(guards, rules, routes, n + 1);
    } else {
        assert(guards.take(n) == guards);
    }
}

/// Checks the host before anything is installed: no gateway's table may hold a
/// route of someone else, and no gateway's mark may be routed to another table.
/// `rules` is what `ip -o rule show` printed and `routes` what `ip -o route show
/// table` printed of each guard's table; a table that was not printed is empty.
pub fn preflight(guards: &Vec<(String, u32)>, rules: &str, routes: &Vec<String>) -> (r: Result<
    (),
    Collision,
>)
    ensures
        match r {
            Ok(_) => preflight_collision(guards_of(guards@), rules@, text::texts(routes@)) is None,
            Err(c) => preflight_collision(guards_of(guards@), rules@, text::texts(routes@)) == Some(
                c@,
            ),
        },
{
    let ghost gs = guards_of(guards@);
    let ghost ts = text::texts(routes@);
    proof {
        reveal_strlit("");
        assert(""@ =~= Seq::<char>::empty());
    }
    for i in 0..guards.len()
        invariant
            gs == guards_of(guards@),
            ts == text::texts(routes@),
            ""@ == Seq::<char>::empty(),
            preflight_collision(gs.take(i as int), rules@, ts) is None,
    {
        assert(gs.take(i + 1).drop_last() == gs.take(i as int));
        assert(gs.take(i + 1).last() == (guards@[i as int].0@, guards@[i as int].1));
        let of = if i < routes.len() {
            assert(ts[i as int] == routes@[i as int]@);
            routes[i].as_str()
        } else {
            ""
        };
        assert(of@ == listing(ts, i as int));
        if let Err(c) = check_guard(guards[i].0.as_str(), guards[i].1, rules, of) {
            proof {
                lemma_preflight_stops(gs, rules@, ts, i + 1);
            }
            return Err(c);
        }
    }
    assert(gs.take(gs.len() as int) == gs);
    Ok(())
}

} // verus!
