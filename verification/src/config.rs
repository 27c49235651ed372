//! Settings, which come from environment variables.

use vstd::prelude::*;

use crate::api::v1alpha1;
use crate::api::v1alpha1::{
    label, parse_gateways, ConfigError, ConfigFault, Gateway, GatewayModel, Gateways,
};
use crate::net;
use crate::net::SocketAddr;
use crate::ordered;
use crate::ordered::TextMap;
use crate::text;
use crate::text::{decimal, parse_u64};

verus! {

/// The environment variables and their values.
pub type Environment = TextMap<String>;

/// The settings.
#[derive(Debug, PartialEq, Eq)]
pub struct Config {
    /// The prefix of the labels, such as `degc` of `degc.enable`.
    pub label_prefix: String,
    /// The file that lists the gateways, or the directory that holds it.
    pub gateways_path: String,
    /// The seconds between two full reconciles.
    pub resync_interval: u64,
    /// The milliseconds without a Docker event before a reconcile.
    pub debounce: u64,
    /// The address on which metrics are served, if any.
    pub metrics_addr: Option<SocketAddr>,
}

/// The model of a [`Config`].
pub struct ConfigModel {
    /// See [`Config::label_prefix`].
    pub label_prefix: Seq<char>,
    /// See [`Config::gateways_path`].
    pub gateways_path: Seq<char>,
    /// See [`Config::resync_interval`].
    pub resync_interval: u64,
    /// See [`Config::debounce`].
    pub debounce: u64,
    /// See [`Config::metrics_addr`].
    pub metrics_addr: Option<SocketAddr>,
}

impl View for Config {
    type V = ConfigModel;

    open spec fn view(&self) -> ConfigModel {
        ConfigModel {
            label_prefix: self.label_prefix@,
            gateways_path: self.gateways_path@,
            resync_interval: self.resync_interval,
            debounce: self.debounce,
            metrics_addr: self.metrics_addr,
        }
    }
}

/// A variable's value, or the fallback where it is not set.
pub open spec fn env_of(
    vars: Map<Seq<char>, Seq<char>>,
    key: Seq<char>,
    fallback: Seq<char>,
) -> Seq<char> {
    match v1alpha1::label_of(vars, key) {
        Some(v) => v,
        None => fallback,
    }
}

/// A variable's number, or the fallback where it is not set or no number.
pub open spec fn env_u64_of(
    vars: Map<Seq<char>, Seq<char>>,
    key: Seq<char>,
    fallback: u64,
) -> u64 {
    match v1alpha1::label_of(vars, key) {
        Some(v) => match text::number_value(v, 10, u64::MAX as nat) {
            Ok(n) => n as u64,
            Err(_) => fallback,
        },
        None => fallback,
    }
}

/// A variable's address, where it is set and one.
pub open spec fn env_addr_of(
    vars: Map<Seq<char>, Seq<char>>,
    key: Seq<char>,
) -> Option<SocketAddr> {
    match v1alpha1::label_of(vars, key) {
        Some(v) => net::socket_named(v),
        None => None,
    }
}

/// The settings for these variables. The resync interval is at least a second.
pub open spec fn config_of(vars: Map<Seq<char>, Seq<char>>) -> ConfigModel {
    let resync = env_u64_of(vars, "DEGC_RESYNC_INTERVAL"@, 30);
    ConfigModel {
        label_prefix: env_of(vars, "DEGC_LABEL_PREFIX"@, "degc"@),
        gateways_path: env_of(vars, "DEGC_GATEWAYS_PATH"@, "/etc/degc/gateways.yaml"@),
        resync_interval: if resync < 1 {
            1
        } else {
            resync
        },
        debounce: env_u64_of(vars, "DEGC_DEBOUNCE_MS"@, 500),
        metrics_addr: env_addr_of(vars, "DEGC_METRICS_ADDR"@),
    }
}

/// Reads a variable.
pub fn env(vars: &Environment, key: &str, fallback: &str) -> (r: String)
    ensures
        r@ == env_of(ordered::text_map(vars@), key@, fallback@),
{
    match label(vars, key) {
        Some(v) => v,
        None => fallback.to_owned(),
    }
}

/// Reads a variable that holds a number.
pub fn env_u64(vars: &Environment, key: &str, fallback: u64) -> (r: u64)
    ensures
        r == env_u64_of(ordered::text_map(vars@), key@, fallback),
{
    match label(vars, key) {
        Some(v) => match parse_u64(v.as_str()) {
            Ok(n) => n,
            Err(_) => fallback,
        },
        None => fallback,
    }
}

/// Reads a variable that holds an address.
pub fn env_addr(vars: &Environment, key: &str) -> (r: Option<SocketAddr>)
    ensures
        r == env_addr_of(ordered::text_map(vars@), key@),
{
    match label(vars, key) {
        Some(v) => SocketAddr::parse(v.as_str()),
        None => None,
    }
}

impl Config {
    /// Reads the settings.
    pub fn from_env(vars: &Environment) -> (r: Self)
        ensures
            r@ == config_of(ordered::text_map(vars@)),
    {
        let resync = env_u64(vars, "DEGC_RESYNC_INTERVAL", 30);
        Config {
            label_prefix: env(vars, "DEGC_LABEL_PREFIX", "degc"),
            gateways_path: env(vars, "DEGC_GATEWAYS_PATH", "/etc/degc/gateways.yaml"),
            resync_interval: if resync < 1 {
                1
            } else {
                resync
            },
            debounce: env_u64(vars, "DEGC_DEBOUNCE_MS", 500),
            metrics_addr: env_addr(vars, "DEGC_METRICS_ADDR"),
        }
    }

    /// The file that lists the gateways: in a directory, `gateways.yaml`.
    pub fn gateways_file(&self, is_directory: bool) -> (r: String)
        ensures
            r@ == (if is_directory {
                self@.gateways_path + "/gateways.yaml"@
            } else {
                self@.gateways_path
            }),
    {
        if is_directory {
            self.gateways_path.clone().concat("/gateways.yaml")
        } else {
            self.gateways_path.clone()
        }
    }
}

// ---------------------------------------------------------------------------
// The gateways file

/// What came of reading the gateways file.
#[derive(Debug, PartialEq, Eq)]
pub enum GatewaysFile {
    /// There is none.
    Missing,
    /// It could not be read, for this reason.
    Unreadable(String),
    /// It was read as a list of gateways, or it is none, for this reason.
    Read(Result<Vec<Gateway>, String>),
}

/// Why there are no gateways to work with.
#[derive(Debug, PartialEq, Eq)]
pub enum LoadError {
    /// The file could not be read.
    Unreadable {
        /// The file.
        path: String,
        /// Why.
        reason: String,
    },
    /// What it says is not valid.
    Config(ConfigError),
}

/// Loads the configured gateways. A file that is missing is in order, as
/// containers may declare gateways; one that cannot be read, or whose gateways
/// are not valid, is an error.
pub fn load_gateways(path: &str, file: GatewaysFile) -> (r: Result<Gateways, LoadError>)
    ensures
        match (file, r) {
            (GatewaysFile::Missing, Ok(gws)) => gws@ == Seq::<GatewayModel>::empty(),
            (GatewaysFile::Unreadable(why), Err(LoadError::Unreadable { path: of, reason })) => of@
                == path@ && reason == why,
            (GatewaysFile::Read(Ok(list)), Ok(gws)) => gws.0 == list && v1alpha1::gateways_fault(
                v1alpha1::models(list@),
            ) is None,
            (GatewaysFile::Read(Ok(list)), Err(LoadError::Config(e))) => v1alpha1::gateways_fault(
                v1alpha1::models(list@),
            ) == Some(e@),
            (GatewaysFile::Read(Err(why)), Err(LoadError::Config(e))) => e@
                == (ConfigFault::Document { reason: why@ }),
            _ => false,
        },
{
    match file {
        GatewaysFile::Missing => Ok(Gateways::default()),
        GatewaysFile::Unreadable(reason) => Err(
            LoadError::Unreadable { path: path.to_owned(), reason },
        ),
        GatewaysFile::Read(document) => match parse_gateways(document) {
            Ok(gws) => Ok(gws),
            Err(e) => Err(LoadError::Config(e)),
        },
    }
}

/// Says that gateways are valid.
pub fn valid_message(gateways: &Gateways) -> (r: String)
    ensures
        r@ == "ok: "@ + text::decimal_text(gateways@.len()) + " gateway(s) valid"@,
{
    "ok: ".to_owned().concat(decimal(gateways.0.len() as u64).as_str()).concat(" gateway(s) valid")
}

impl LoadError {
    /// Says what is wrong, given the message of a configuration error.
    pub fn message_with(&self, cause: &str) -> (r: String)
        ensures
            match self {
                LoadError::Unreadable { path, reason } => r@ == "reading gateways from "@ + path@
                    + ": "@ + reason@,
                LoadError::Config(_) => r@ == cause@,
            },
    {
        match self {
            LoadError::Unreadable { path, reason } => "reading gateways from ".to_owned().concat(
                path.as_str(),
            ).concat(": ").concat(reason.as_str()),
            LoadError::Config(_) => cause.to_owned(),
        }
    }

    /// Says what is wrong.
    pub fn message(&self) -> (r: String)
        ensures
            match self {
                LoadError::Unreadable { path, reason } => r@ == "reading gateways from "@ + path@
                    + ": "@ + reason@,
                LoadError::Config(e) => r@ == v1alpha1::error::fault_text(e@),
            },
    {
        let cause = match self {
            LoadError::Config(e) => e.message(),
            _ => String::new(),
        };
        self.message_with(cause.as_str())
    }
}

// ---------------------------------------------------------------------------
// What holds of the settings

/// Whatever the variables say, there is at least a second between two resyncs.
pub proof fn resync_is_never_immediate(vars: Map<Seq<char>, Seq<char>>)
    ensures
        config_of(vars).resync_interval >= 1,
{
}

/// A variable that holds no number counts as one that is not set.
pub proof fn malformed_numbers_fall_back(
    vars: Map<Seq<char>, Seq<char>>,
    key: Seq<char>,
    value: Seq<char>,
    fallback: u64,
)
    requires
        text::number_value(value, 10, u64::MAX as nat) is Err,
    ensures
        env_u64_of(vars.insert(key, value), key, fallback) == env_u64_of(
            vars.remove(key),
            key,
            fallback,
        ),
{
}

/// Metrics are served only where the variable is an address; one that is none
/// counts as one that is not set.
pub proof fn malformed_address_serves_nothing(vars: Map<Seq<char>, Seq<char>>, value: Seq<char>)
    requires
        net::socket_named(value) is None,
    ensures
        config_of(vars.insert("DEGC_METRICS_ADDR"@, value)).metrics_addr is None,
        config_of(vars.remove("DEGC_METRICS_ADDR"@)).metrics_addr is None,
{
}

/// A number that is set is the number that is read.
pub proof fn numbers_are_read(
    vars: Map<Seq<char>, Seq<char>>,
    key: Seq<char>,
    n: u64,
    fallback: u64,
)
    ensures
        env_u64_of(vars.insert(key, text::decimal_text(n as nat)), key, fallback) == n,
{
    text::number_reads_back(n as nat, 10, u64::MAX as nat);
}

/// What is not set has its usual value.
pub proof fn usual_settings(vars: Map<Seq<char>, Seq<char>>)
    ensures
        !vars.dom().contains("DEGC_LABEL_PREFIX"@) ==> config_of(vars).label_prefix == "degc"@,
        !vars.dom().contains("DEGC_GATEWAYS_PATH"@) ==> config_of(vars).gateways_path
            == "/etc/degc/gateways.yaml"@,
        !vars.dom().contains("DEGC_RESYNC_INTERVAL"@) ==> config_of(vars).resync_interval == 30,
        !vars.dom().contains("DEGC_DEBOUNCE_MS"@) ==> config_of(vars).debounce == 500,
        !vars.dom().contains("DEGC_METRICS_ADDR"@) ==> config_of(vars).metrics_addr is None,
{
}

/// What is set counts: each variable gives its own setting, and a resync interval
/// of nothing is a second.
pub proof fn settings_that_are_given(vars: Map<Seq<char>, Seq<char>>, value: Seq<char>, n: u64)
    ensures
        config_of(vars.insert("DEGC_LABEL_PREFIX"@, value)).label_prefix == value,
        config_of(vars.insert("DEGC_GATEWAYS_PATH"@, value)).gateways_path == value,
        config_of(
            vars.insert("DEGC_RESYNC_INTERVAL"@, text::decimal_text(n as nat)),
        ).resync_interval == (if n == 0 {
            1
        } else {
            n
        }),
        config_of(vars.insert("DEGC_DEBOUNCE_MS"@, text::decimal_text(n as nat))).debounce == n,
        config_of(vars.insert("DEGC_METRICS_ADDR"@, value)).metrics_addr == net::socket_named(
            value,
        ),
{
    numbers_are_read(vars, "DEGC_RESYNC_INTERVAL"@, n, 30);
    numbers_are_read(vars, "DEGC_DEBOUNCE_MS"@, n, 500);
}

/// A number that cannot be read gives the usual value.
pub proof fn malformed_settings(vars: Map<Seq<char>, Seq<char>>, value: Seq<char>)
    requires
        text::number_value(value, 10, u64::MAX as nat) is Err,
    ensures
        config_of(vars.insert("DEGC_RESYNC_INTERVAL"@, value)).resync_interval == 30,
        config_of(vars.insert("DEGC_DEBOUNCE_MS"@, value)).debounce == 500,
{
}

/// A setting depends on its own variable alone.
pub proof fn settings_are_apart(vars: Map<Seq<char>, Seq<char>>, key: Seq<char>, value: Seq<char>)
    ensures
        key != "DEGC_LABEL_PREFIX"@ ==> config_of(vars.insert(key, value)).label_prefix
            == config_of(vars).label_prefix,
        key != "DEGC_GATEWAYS_PATH"@ ==> config_of(vars.insert(key, value)).gateways_path
            == config_of(vars).gateways_path,
        key != "DEGC_RESYNC_INTERVAL"@ ==> config_of(vars.insert(key, value)).resync_interval
            == config_of(vars).resync_interval,
        key != "DEGC_DEBOUNCE_MS"@ ==> config_of(vars.insert(key, value)).debounce == config_of(
            vars,
        ).debounce,
        key != "DEGC_METRICS_ADDR"@ ==> config_of(vars.insert(key, value)).metrics_addr
            == config_of(vars).metrics_addr,
{
}

} // verus!
