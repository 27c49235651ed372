//! What can be wrong with a gateway configuration.

use vstd::prelude::*;

use crate::text;
use crate::text::{decimal, hex, quoted, trim, NumberError};

verus! {

/// Why a gateway, or a set of gateways, is rejected.
#[derive(Debug, PartialEq, Eq)]
#[allow(inconsistent_fields)]
pub enum ConfigError {
    /// Not exactly one kind of egress is set.
    EgressKinds {
        /// The gateway.
        gateway: String,
        /// How many kinds are set.
        set: u64,
    },
    /// The mark is no 32-bit number.
    BadMark {
        /// The gateway.
        gateway: String,
        /// The mark as it was given.
        mark: String,
    },
    /// The mark is zero, which every unmarked packet carries.
    ZeroMark {
        /// The gateway.
        gateway: String,
    },
    /// The table is zero.
    ZeroTable {
        /// The gateway.
        gateway: String,
    },
    /// The name is no interface name.
    BadInterface {
        /// The gateway.
        gateway: String,
        /// The name as it was given.
        interface: String,
    },
    /// The next hop is no address.
    BadNextHop {
        /// The gateway.
        gateway: String,
        /// The next hop as it was given.
        next_hop: String,
    },
    /// A local subnet is no network.
    BadLocalSubnet {
        /// The gateway.
        gateway: String,
        /// The subnet as it was given.
        subnet: String,
        /// What could not be read.
        cause: String,
    },
    /// A selector is empty.
    EmptySelector {
        /// The gateway.
        gateway: String,
    },
    /// The table label is no 32-bit number.
    BadTableLabel {
        /// The gateway.
        gateway: String,
        /// The label's value.
        table: String,
        /// What is wrong with it.
        cause: NumberError,
    },
    /// The snat label is neither `true` nor `false`.
    BadSnatLabel {
        /// The gateway.
        gateway: String,
        /// The label's value.
        snat: String,
    },
    /// The default label is neither `true` nor `false`.
    BadDefaultLabel {
        /// The gateway.
        gateway: String,
        /// The label's value.
        default: String,
    },
    /// The members label is no list of `key=value` pairs.
    BadMembersLabel {
        /// The gateway.
        gateway: String,
        /// The label's value.
        members: String,
    },
    /// Two gateways have one name.
    DuplicateGateway {
        /// The name.
        gateway: String,
    },
    /// More than one gateway is the default.
    ManyDefaults,
    /// Two gateways have one mark.
    SameMark {
        /// The earlier gateway.
        first: String,
        /// The later gateway.
        second: String,
        /// The mark.
        mark: u32,
    },
    /// Two gateways have one routing table.
    SameTable {
        /// The earlier gateway.
        first: String,
        /// The later gateway.
        second: String,
        /// The table.
        table: u32,
    },
    /// A text is no 32-bit number.
    NotU32 {
        /// The text.
        text: String,
    },
    /// The document is no list of gateways.
    Document {
        /// What the reader of the document said.
        reason: String,
    },
}

/// The model of a [`ConfigError`].
#[allow(inconsistent_fields)]
pub enum ConfigFault {
    /// See [`ConfigError::EgressKinds`].
    EgressKinds { gateway: Seq<char>, set: nat },
    /// See [`ConfigError::BadMark`].
    BadMark { gateway: Seq<char>, mark: Seq<char> },
    /// See [`ConfigError::ZeroMark`].
    ZeroMark { gateway: Seq<char> },
    /// See [`ConfigError::ZeroTable`].
    ZeroTable { gateway: Seq<char> },
    /// See [`ConfigError::BadInterface`].
    BadInterface { gateway: Seq<char>, interface: Seq<char> },
    /// See [`ConfigError::BadNextHop`].
    BadNextHop { gateway: Seq<char>, next_hop: Seq<char> },
    /// See [`ConfigError::BadLocalSubnet`].
    BadLocalSubnet { gateway: Seq<char>, subnet: Seq<char>, cause: Seq<char> },
    /// See [`ConfigError::EmptySelector`].
    EmptySelector { gateway: Seq<char> },
    /// See [`ConfigError::BadTableLabel`].
    BadTableLabel { gateway: Seq<char>, table: Seq<char>, cause: NumberError },
    /// See [`ConfigError::BadSnatLabel`].
    BadSnatLabel { gateway: Seq<char>, snat: Seq<char> },
    /// See [`ConfigError::BadDefaultLabel`].
    BadDefaultLabel { gateway: Seq<char>, default: Seq<char> },
    /// See [`ConfigError::BadMembersLabel`].
    BadMembersLabel { gateway: Seq<char>, members: Seq<char> },
    /// See [`ConfigError::DuplicateGateway`].
    DuplicateGateway { gateway: Seq<char> },
    /// See [`ConfigError::ManyDefaults`].
    ManyDefaults,
    /// See [`ConfigError::SameMark`].
    SameMark { first: Seq<char>, second: Seq<char>, mark: u32 },
    /// See [`ConfigError::SameTable`].
    SameTable { first: Seq<char>, second: Seq<char>, table: u32 },
    /// See [`ConfigError::NotU32`].
    NotU32 { text: Seq<char> },
    /// See [`ConfigError::Document`].
    Document { reason: Seq<char> },
}

impl View for ConfigError {
    type V = ConfigFault;

    open spec fn view(&self) -> ConfigFault {
        match self {
            ConfigError::EgressKinds { gateway, set } => ConfigFault::EgressKinds {
                gateway: gateway@,
                set: *set as nat,
            },
            ConfigError::BadMark { gateway, mark } => ConfigFault::BadMark {
                gateway: gateway@,
                mark: mark@,
            },
            ConfigError::ZeroMark { gateway } => ConfigFault::ZeroMark { gateway: gateway@ },
            ConfigError::ZeroTable { gateway } => ConfigFault::ZeroTable { gateway: gateway@ },
            ConfigError::BadInterface { gateway, interface } => ConfigFault::BadInterface {
                gateway: gateway@,
                interface: interface@,
            },
            ConfigError::BadNextHop { gateway, next_hop } => ConfigFault::BadNextHop {
                gateway: gateway@,
                next_hop: next_hop@,
            },
            ConfigError::BadLocalSubnet { gateway, subnet, cause } => ConfigFault::BadLocalSubnet {
                gateway: gateway@,
                subnet: subnet@,
                cause: cause@,
            },
            ConfigError::EmptySelector { gateway } => ConfigFault::EmptySelector {
                gateway: gateway@,
            },
            ConfigError::BadTableLabel { gateway, table, cause } => ConfigFault::BadTableLabel {
                gateway: gateway@,
                table: table@,
                cause: *cause,
            },
            ConfigError::BadSnatLabel { gateway, snat } => ConfigFault::BadSnatLabel {
                gateway: gateway@,
                snat: snat@,
            },
            ConfigError::BadDefaultLabel { gateway, default } => ConfigFault::BadDefaultLabel {
                gateway: gateway@,
                default: default@,
            },
            ConfigError::BadMembersLabel { gateway, members } => ConfigFault::BadMembersLabel {
                gateway: gateway@,
                members: members@,
            },
            ConfigError::DuplicateGateway { gateway } => ConfigFault::DuplicateGateway {
                gateway: gateway@,
            },
            ConfigError::ManyDefaults => ConfigFault::ManyDefaults,
            ConfigError::SameMark { first, second, mark } => ConfigFault::SameMark {
                first: first@,
                second: second@,
                mark: *mark,
            },
            ConfigError::SameTable { first, second, table } => ConfigFault::SameTable {
                first: first@,
                second: second@,
                table: *table,
            },
            ConfigError::NotU32 { text } => ConfigFault::NotU32 { text: text@ },
            ConfigError::Document { reason } => ConfigFault::Document { reason: reason@ },
        }
    }
}

impl Clone for ConfigError {
    fn clone(&self) -> (r: Self)
        ensures
            r@ == self@,
    {
        match self {
            ConfigError::EgressKinds { gateway, set } => ConfigError::EgressKinds {
                gateway: gateway.clone(),
                set: *set,
            },
            ConfigError::BadMark { gateway, mark } => ConfigError::BadMark {
                gateway: gateway.clone(),
                mark: mark.clone(),
            },
            ConfigError::ZeroMark { gateway } => ConfigError::ZeroMark {
                gateway: gateway.clone(),
            },
            ConfigError::ZeroTable { gateway } => ConfigError::ZeroTable {
                gateway: gateway.clone(),
            },
            ConfigError::BadInterface { gateway, interface } => ConfigError::BadInterface {
                gateway: gateway.clone(),
                interface: interface.clone(),
            },
            ConfigError::BadNextHop { gateway, next_hop } => ConfigError::BadNextHop {
                gateway: gateway.clone(),
                next_hop: next_hop.clone(),
            },
            ConfigError::BadLocalSubnet { gateway, subnet, cause } => ConfigError::BadLocalSubnet {
                gateway: gateway.clone(),
                subnet: subnet.clone(),
                cause: cause.clone(),
            },
            ConfigError::EmptySelector { gateway } => ConfigError::EmptySelector {
                gateway: gateway.clone(),
            },
            ConfigError::BadTableLabel { gateway, table, cause } => ConfigError::BadTableLabel {
                gateway: gateway.clone(),
                table: table.clone(),
                cause: *cause,
            },
            ConfigError::BadSnatLabel { gateway, snat } => ConfigError::BadSnatLabel {
                gateway: gateway.clone(),
                snat: snat.clone(),
            },
            ConfigError::BadDefaultLabel { gateway, default } => ConfigError::BadDefaultLabel {
                gateway: gateway.clone(),
                default: default.clone(),
            },
            ConfigError::BadMembersLabel { gateway, members } => ConfigError::BadMembersLabel {
                gateway: gateway.clone(),
                members: members.clone(),
            },
            ConfigError::DuplicateGateway { gateway } => ConfigError::DuplicateGateway {
                gateway: gateway.clone(),
            },
            ConfigError::ManyDefaults => ConfigError::ManyDefaults,
            ConfigError::SameMark { first, second, mark } => ConfigError::SameMark {
                first: first.clone(),
                second: second.clone(),
                mark: *mark,
            },
            ConfigError::SameTable { first, second, table } => ConfigError::SameTable {
                first: first.clone(),
                second: second.clone(),
                table: *table,
            },
            ConfigError::NotU32 { text } => ConfigError::NotU32 {
                text: text.clone(),
            },
            ConfigError::Document { reason } => ConfigError::Document {
                reason: reason.clone(),
            },
        }
    }
}

/// What a [`NumberError`] says.
pub open spec fn number_error_text(e: NumberError) -> Seq<char> {
    match e {
        NumberError::Empty => "cannot parse integer from empty string"@,
        NumberError::InvalidDigit => "invalid digit found in string"@,
        NumberError::TooLarge => "number too large to fit in target type"@,
    }
}

/// What a [`NumberError`] says.
pub fn number_message(e: NumberError) -> (r: &'static str)
    ensures
        r@ == number_error_text(e),
{
    match e {
        NumberError::Empty => "cannot parse integer from empty string",
        NumberError::InvalidDigit => "invalid digit found in string",
        NumberError::TooLarge => "number too large to fit in target type",
    }
}

/// The two texts that the message of a fault shows in quotes, where it shows
/// any.
pub open spec fn fault_quotes(f: ConfigFault) -> (Seq<char>, Seq<char>) {
    match f {
        ConfigFault::BadMark { mark, .. } => (mark, text::trim_of(mark)),
        ConfigFault::BadInterface { interface, .. } => (interface, Seq::empty()),
        ConfigFault::BadNextHop { next_hop, .. } => (next_hop, Seq::empty()),
        ConfigFault::BadLocalSubnet { subnet, .. } => (subnet, Seq::empty()),
        ConfigFault::BadTableLabel { gateway, table, .. } => (gateway, table),
        ConfigFault::BadSnatLabel { gateway, snat } => (gateway, snat),
        ConfigFault::BadDefaultLabel { gateway, default } => (gateway, default),
        ConfigFault::BadMembersLabel { gateway, members } => (gateway, members),
        ConfigFault::DuplicateGateway { gateway } => (gateway, Seq::empty()),
        ConfigFault::SameMark { first, second, .. } => (first, second),
        ConfigFault::SameTable { first, second, .. } => (first, second),
        ConfigFault::NotU32 { text } => (text, Seq::empty()),
        _ => (Seq::empty(), Seq::empty()),
    }
}

/// The message of a fault, given its two texts in quotes.
pub open spec fn fault_text_with(f: ConfigFault, a: Seq<char>, b: Seq<char>) -> Seq<char> {
    match f {
        ConfigFault::EgressKinds { gateway, set } => "gateway "@ + gateway
            + ": egress needs exactly one of interface/container/nextHop (got "@ + text::decimal_text(set)
            + ")"@,
        ConfigFault::BadMark { gateway, .. } => "gateway "@ + gateway + ": bad mark "@ + a
            + ": not a u32: "@ + b,
        ConfigFault::ZeroMark { gateway } => "gateway "@ + gateway
            + ": mark must be non-zero (0 matches all unmarked traffic)"@,
        ConfigFault::ZeroTable { gateway } => "gateway "@ + gateway + ": table must be > 0"@,
        ConfigFault::BadInterface { gateway, .. } => "gateway "@ + gateway
            + ": bad interface name "@ + a + " (want 1-15 of [A-Za-z0-9._-])"@,
        ConfigFault::BadNextHop { gateway, .. } => "gateway "@ + gateway + ": bad nextHop "@ + a
            + ": invalid IP address syntax"@,
        ConfigFault::BadLocalSubnet { gateway, cause, .. } => "gateway "@ + gateway
            + ": bad localSubnet "@ + a + ": "@ + cause,
        ConfigFault::EmptySelector { gateway } => "gateway "@ + gateway
            + ": a members selector must not be empty (it would match nothing)"@,
        ConfigFault::BadTableLabel { cause, .. } => "gateway "@ + a + ": bad table label "@ + b
            + ": "@ + number_error_text(cause),
        ConfigFault::BadSnatLabel { .. } => "gateway "@ + a + ": bad snat label "@ + b
            + ": neither true nor false"@,
        ConfigFault::BadDefaultLabel { .. } => "gateway "@ + a + ": bad default label "@ + b
            + ": neither true nor false"@,
        ConfigFault::BadMembersLabel { .. } => "gateway "@ + a + ": bad members label "@ + b
            + ": not a list of key=value pairs"@,
        ConfigFault::DuplicateGateway { .. } => "duplicate gateway "@ + a,
        ConfigFault::ManyDefaults => "more than one default gateway"@,
        ConfigFault::SameMark { mark, .. } => "gateways "@ + a + " and "@ + b
            + " resolve to the same mark "@ + text::hex_text(mark as nat)
            + " — set an explicit `mark` on one"@,
        ConfigFault::SameTable { table, .. } => "gateways "@ + a + " and "@ + b
            + " resolve to the same table "@ + text::decimal_text(table as nat)
            + " — set an explicit `table` on one"@,
        ConfigFault::NotU32 { .. } => "not a u32: "@ + a,
        ConfigFault::Document { reason } => "parse gateways document: "@ + reason,
    }
}

/// The message of a fault.
pub open spec fn fault_text(f: ConfigFault) -> Seq<char> {
    let quotes = fault_quotes(f);
    fault_text_with(f, text::debug_text(quotes.0), text::debug_text(quotes.1))
}

/// `gateway <name>` followed by `rest`.
fn about(gateway: &String, rest: &str) -> (r: String)
    ensures
        r@ == "gateway "@ + gateway@ + rest@,
{
    let mut r = "gateway ".to_owned();
    r.append(gateway.as_str());
    r.append(rest);
    r
}

/// `first a middle b last`, joined as they are.
fn about_two(first: &str, a: &str, middle: &str, b: &str, last: &str) -> (r: String)
    ensures
        r@ == first@ + a@ + middle@ + b@ + last@,
{
    let mut r = first.to_owned();
    r.append(a);
    r.append(middle);
    r.append(b);
    r.append(last);
    r
}

impl ConfigError {
    /// The message, on one line, given the two texts of [`fault_quotes`] in
    /// quotes.
    pub fn message_with(&self, a: &str, b: &str) -> (r: String)
        ensures
            r@ == fault_text_with(self@, a@, b@),
    {
        match self {
            ConfigError::EgressKinds { gateway, set } => {
                let mut r = about(
                    gateway,
                    ": egress needs exactly one of interface/container/nextHop (got ",
                );
                r.append(decimal(*set).as_str());
                r.append(")");
                r
            },
            ConfigError::BadMark { gateway, .. } => {
                let mut r = about(gateway, ": bad mark ");
                r.append(a);
                r.append(": not a u32: ");
                r.append(b);
                r
            },
            ConfigError::ZeroMark { gateway } => about(
                gateway,
                ": mark must be non-zero (0 matches all unmarked traffic)",
            ),
            ConfigError::ZeroTable { gateway } => about(gateway, ": table must be > 0"),
            ConfigError::BadInterface { gateway, .. } => {
                let mut r = about(gateway, ": bad interface name ");
                r.append(a);
                r.append(" (want 1-15 of [A-Za-z0-9._-])");
                r
            },
            ConfigError::BadNextHop { gateway, .. } => {
                let mut r = about(gateway, ": bad nextHop ");
                r.append(a);
                r.append(": invalid IP address syntax");
                r
            },
            ConfigError::BadLocalSubnet { gateway, cause, .. } => {
                let mut r = about(gateway, ": bad localSubnet ");
                r.append(a);
                r.append(": ");
                r.append(cause.as_str());
                r
            },
            ConfigError::EmptySelector { gateway } => about(
                gateway,
                ": a members selector must not be empty (it would match nothing)",
            ),
            ConfigError::BadTableLabel { cause, .. } => {
                let mut r = about_two("gateway ", a, ": bad table label ", b, ": ");
                r.append(number_message(*cause));
                r
            },
            ConfigError::BadSnatLabel { .. } => about_two(
                "gateway ",
                a,
                ": bad snat label ",
                b,
                ": neither true nor false",
            ),
            ConfigError::BadDefaultLabel { .. } => about_two(
                "gateway ",
                a,
                ": bad default label ",
                b,
                ": neither true nor false",
            ),
            ConfigError::BadMembersLabel { .. } => about_two(
                "gateway ",
                a,
                ": bad members label ",
                b,
                ": not a list of key=value pairs",
            ),
            ConfigError::DuplicateGateway { .. } => {
                let mut r = "duplicate gateway ".to_owned();
                r.append(a);
                r
            },
            ConfigError::ManyDefaults => "more than one default gateway".to_owned(),
            ConfigError::SameMark { mark, .. } => {
                let mut r = about_two("gateways ", a, " and ", b, " resolve to the same mark ");
                r.append(hex(*mark).as_str());
                r.append(" — set an explicit `mark` on one");
                r
            },
            ConfigError::SameTable { table, .. } => {
                let mut r = about_two("gateways ", a, " and ", b, " resolve to the same table ");
                r.append(decimal(*table as u64).as_str());
                r.append(" — set an explicit `table` on one");
                r
            },
            ConfigError::NotU32 { .. } => {
                let mut r = "not a u32: ".to_owned();
                r.append(a);
                r
            },
            ConfigError::Document { reason } => {
                let mut r = "parse gateways document: ".to_owned();
                r.append(reason.as_str());
                r
            },
        }
    }

    /// The two texts that the message shows in quotes, where it shows any.
    pub fn quotes(&self) -> (r: (String, String))
        ensures
            (r.0@, r.1@) == fault_quotes(self@),
    {
        match self {
            ConfigError::BadMark { mark, .. } => (mark.clone(), trim(mark.as_str())),
            ConfigError::BadInterface { interface, .. } => (interface.clone(), String::new()),
            ConfigError::BadNextHop { next_hop, .. } => (next_hop.clone(), String::new()),
            ConfigError::BadLocalSubnet { subnet, .. } => (subnet.clone(), String::new()),
            ConfigError::BadTableLabel { gateway, table, .. } => (gateway.clone(), table.clone()),
            ConfigError::BadSnatLabel { gateway, snat } => (gateway.clone(), snat.clone()),
            ConfigError::BadDefaultLabel { gateway, default } => (gateway.clone(), default.clone()),
            ConfigError::BadMembersLabel { gateway, members } => (gateway.clone(), members.clone()),
            ConfigError::DuplicateGateway { gateway } => (gateway.clone(), String::new()),
            ConfigError::SameMark { first, second, .. } => (first.clone(), second.clone()),
            ConfigError::SameTable { first, second, .. } => (first.clone(), second.clone()),
            ConfigError::NotU32 { text } => (text.clone(), String::new()),
            _ => (String::new(), String::new()),
        }
    }

    /// The message, on one line: what is wrong, then its cause.
    pub fn message(&self) -> (r: String)
        ensures
            r@ == fault_text(self@),
    {
        let (a, b) = self.quotes();
        self.message_with(quoted(a.as_str()).as_str(), quoted(b.as_str()).as_str())
    }
}

// ---------------------------------------------------------------------------
// What can be relied on

/// What is said of a value of a gateway that is not in order: which gateway, and
/// the value as it was given, in quotes.
pub proof fn messages_on_values(g: Seq<char>, v: Seq<char>, cause: Seq<char>, n: nat)
    ensures
        fault_text(ConfigFault::EgressKinds { gateway: g, set: n }) == "gateway "@ + g
            + ": egress needs exactly one of interface/container/nextHop (got "@
            + text::decimal_text(n) + ")"@,
        fault_text(ConfigFault::BadMark { gateway: g, mark: v }) == "gateway "@ + g
            + ": bad mark "@ + text::debug_text(v) + ": not a u32: "@ + text::debug_text(
            text::trim_of(v),
        ),
        fault_text(ConfigFault::ZeroMark { gateway: g }) == "gateway "@ + g
            + ": mark must be non-zero (0 matches all unmarked traffic)"@,
        fault_text(ConfigFault::ZeroTable { gateway: g }) == "gateway "@ + g
            + ": table must be > 0"@,
        fault_text(ConfigFault::BadInterface { gateway: g, interface: v }) == "gateway "@ + g
            + ": bad interface name "@ + text::debug_text(v)
            + " (want 1-15 of [A-Za-z0-9._-])"@,
        fault_text(ConfigFault::BadNextHop { gateway: g, next_hop: v }) == "gateway "@ + g
            + ": bad nextHop "@ + text::debug_text(v) + ": invalid IP address syntax"@,
        fault_text(ConfigFault::BadLocalSubnet { gateway: g, subnet: v, cause }) == "gateway "@ + g
            + ": bad localSubnet "@ + text::debug_text(v) + ": "@ + cause,
        fault_text(ConfigFault::EmptySelector { gateway: g }) == "gateway "@ + g
            + ": a members selector must not be empty (it would match nothing)"@,
{
}

/// What is said of a label that is not in order: which gateway and which value,
/// both in quotes, and why.
pub proof fn messages_on_labels(g: Seq<char>, v: Seq<char>)
    ensures
        fault_text(
            ConfigFault::BadTableLabel { gateway: g, table: v, cause: NumberError::Empty },
        ) == "gateway "@ + text::debug_text(g) + ": bad table label "@ + text::debug_text(v) + ": "@
            + "cannot parse integer from empty string"@,
        fault_text(
            ConfigFault::BadTableLabel { gateway: g, table: v, cause: NumberError::InvalidDigit },
        ) == "gateway "@ + text::debug_text(g) + ": bad table label "@ + text::debug_text(v) + ": "@
            + "invalid digit found in string"@,
        fault_text(
            ConfigFault::BadTableLabel { gateway: g, table: v, cause: NumberError::TooLarge },
        ) == "gateway "@ + text::debug_text(g) + ": bad table label "@ + text::debug_text(v) + ": "@
            + "number too large to fit in target type"@,
        fault_text(ConfigFault::BadSnatLabel { gateway: g, snat: v }) == "gateway "@
            + text::debug_text(g) + ": bad snat label "@ + text::debug_text(v)
            + ": neither true nor false"@,
        fault_text(ConfigFault::BadDefaultLabel { gateway: g, default: v }) == "gateway "@
            + text::debug_text(g) + ": bad default label "@ + text::debug_text(v)
            + ": neither true nor false"@,
        fault_text(ConfigFault::BadMembersLabel { gateway: g, members: v }) == "gateway "@
            + text::debug_text(g) + ": bad members label "@ + text::debug_text(v)
            + ": not a list of key=value pairs"@,
{
}

/// What is said of several gateways that do not go together, and of a document.
pub proof fn messages_on_sets(a: Seq<char>, b: Seq<char>, n: u32)
    ensures
        fault_text(ConfigFault::DuplicateGateway { gateway: a }) == "duplicate gateway "@
            + text::debug_text(a),
        fault_text(ConfigFault::ManyDefaults) == "more than one default gateway"@,
        fault_text(ConfigFault::SameMark { first: a, second: b, mark: n }) == "gateways "@
            + text::debug_text(a) + " and "@ + text::debug_text(b)
            + " resolve to the same mark "@ + text::hex_text(n as nat)
            + " — set an explicit `mark` on one"@,
        fault_text(ConfigFault::SameTable { first: a, second: b, table: n }) == "gateways "@
            + text::debug_text(a) + " and "@ + text::debug_text(b)
            + " resolve to the same table "@ + text::decimal_text(n as nat)
            + " — set an explicit `table` on one"@,
        fault_text(ConfigFault::NotU32 { text: a }) == "not a u32: "@ + text::debug_text(a),
        fault_text(ConfigFault::Document { reason: a }) == "parse gateways document: "@ + a,
{
}

} // verus!
