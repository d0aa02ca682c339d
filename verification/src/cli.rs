//! The command line, and what the service tells its operator.

use vstd::prelude::*;
use vstd::string::*;

use crate::address::{address_text, network_text, IpNetwork};
use crate::config::{
    all_wf, ApiKeyConfig, ConfigError, ConfigErrorView, DatabaseConfig, LoadedConfig, ServerConfig,
};
use crate::text::{
    decimal, decimal_text, join, joined, law_join_from_the_left, signed_decimal,
    signed_decimal_text, views,
};

verus! {

/// The options of the command line.
#[derive(Debug)]
pub struct Cli {
    /// The path of the configuration file.
    pub config: String,
    /// Check the configuration and exit.
    pub check_config: bool,
    /// Check the database connection too.
    pub check_dbconn: bool,
}

/// What the command line asks for.
#[derive(Clone, Copy, Debug, PartialEq, Eq, Structural)]
pub enum Plan {
    /// Run the service.
    Serve,
    /// Check the configuration; connect to nothing and listen nowhere.
    CheckConfig,
    /// Check the configuration, and then the database connection.
    CheckConfigAndDatabase,
}

impl Cli {
    /// What the options ask for; nothing where the database is to be checked without the
    /// configuration.
    pub fn plan(&self) -> (plan: Option<Plan>)
        ensures
            plan == (if self.check_dbconn && !self.check_config {
                None
            } else if self.check_dbconn {
                Some(Plan::CheckConfigAndDatabase)
            } else if self.check_config {
                Some(Plan::CheckConfig)
            } else {
                Some(Plan::Serve)
            }),
    {
        if self.check_dbconn {
            if self.check_config {
                Some(Plan::CheckConfigAndDatabase)
            } else {
                None
            }
        } else if self.check_config {
            Some(Plan::CheckConfig)
        } else {
            Some(Plan::Serve)
        }
    }
}

/// A host and a port with a colon between them.
pub open spec fn host_port(host: Seq<char>, port: u16) -> Seq<char> {
    host + ":"@ + decimal(port as nat)
}

/// A host and a port with a colon between them.
fn host_port_text(host: &str, port: u16) -> (out: String)
    ensures
        out@ == host_port(host@, port),
{
    let mut out = host.to_owned();
    out.append(":");
    let port_string = decimal_text(port as u64);
    out.append(port_string.as_str());
    out
}

/// The address that the service listens on.
pub fn listen_address(server: &ServerConfig) -> (out: String)
    ensures
        out@ == host_port(server.host@, server.port),
        out@ == server.host@ + ":"@ + decimal(server.port as nat),
{
    host_port_text(server.host.as_str(), server.port)
}

/// The database as host, port and name, without the password.
pub open spec fn database_target(database: DatabaseConfig) -> Seq<char> {
    host_port(database.host@, database.port) + "/"@ + database.name@
}

/// The database as host, port and name, without the password.
fn database_target_text(database: &DatabaseConfig) -> (out: String)
    ensures
        out@ == database_target(*database),
{
    let mut out = host_port_text(database.host.as_str(), database.port);
    out.append("/");
    out.append(database.name.as_str());
    out
}

/// What a failure to connect to the database is reported as. The cause alone would not say
/// where the connection was tried.
pub fn connection_failure(database: &DatabaseConfig, cause: &str) -> (out: String)
    ensures
        out@ == "cannot connect to database "@ + database_target(*database) + " (user="@
            + database.user@ + "): "@ + cause@,
        out@ == "cannot connect to database "@ + (database.host@ + ":"@ + decimal(
            database.port as nat,
        ) + "/"@ + database.name@) + " (user="@ + database.user@ + "): "@ + cause@,
{
    let mut out = "cannot connect to database ".to_owned();
    let target = database_target_text(database);
    out.append(target.as_str());
    out.append(" (user=");
    out.append(database.user.as_str());
    out.append("): ");
    out.append(cause);
    out
}

/// The names of the keys.
pub open spec fn key_names(keys: Seq<ApiKeyConfig>) -> Seq<Seq<char>> {
    keys.map_values(|key: ApiKeyConfig| key.name@)
}

/// The names of the keys.
fn collect_key_names(keys: &Vec<ApiKeyConfig>) -> (names: Vec<String>)
    ensures
        views(names@) == key_names(keys@),
{
    let mut names: Vec<String> = Vec::new();
    let mut i: usize = 0;
    while i < keys.len()
        invariant
            i <= keys.len(),
            names@.len() == i,
            forall|j: int| 0 <= j < i ==> (#[trigger] names@[j])@ == keys@[j].name@,
        decreases keys.len() - i,
    {
        names.push(keys[i].name.clone());
        i = i + 1;
    }
    assert(views(names@) =~= key_names(keys@));
    names
}

/// The networks with commas between them, or what stands for none.
pub open spec fn networks_or(nets: Seq<IpNetwork>, none: Seq<char>) -> Seq<char> {
    if nets.len() == 0 {
        none
    } else {
        joined(nets.map_values(|net: IpNetwork| network_text(net)), ", "@)
    }
}

/// The networks with commas between them, or what stands for none.
fn networks_or_text(nets: &Vec<IpNetwork>, none: &str) -> (out: String)
    requires
        all_wf(nets@),
    ensures
        out@ == networks_or(nets@, none@),
{
    if nets.len() == 0 {
        return none.to_owned();
    }
    let mut texts: Vec<String> = Vec::new();
    let mut i: usize = 0;
    while i < nets.len()
        invariant
            i <= nets.len(),
            all_wf(nets@),
            texts@.len() == i,
            forall|j: int| 0 <= j < i ==> (#[trigger] texts@[j])@ == network_text(nets@[j]),
        decreases nets.len() - i,
    {
        texts.push(nets[i].to_text());
        i = i + 1;
    }
    assert(views(texts@) =~= nets@.map_values(|net: IpNetwork| network_text(net)));
    join(&texts, ", ")
}

/// The lines of the report on a configuration that passed its checks: the values in effect,
/// not the text of the file.
pub open spec fn report_lines(path: Seq<char>, loaded: LoadedConfig) -> Seq<Seq<char>> {
    let config = loaded.config;
    seq![
        "config "@ + path + " is valid"@,
        "  listen              "@ + host_port(config.server.host@, config.server.port),
        "  database            "@ + database_target(config.database) + " (user="@
            + config.database.user@ + ", max_connections="@ + decimal(
            config.database.max_connections as nat,
        ) + ")"@,
        "  api keys            "@ + decimal(config.auth.keys@.len()) + " configured: "@ + joined(
            key_names(config.auth.keys@),
            ", "@,
        ),
        "  trusted proxies     "@ + networks_or(
            loaded.trusted_proxies@,
            "none (client IP is always the TCP peer address)"@,
        ),
        "  threshold sources   "@ + networks_or(
            loaded.threshold_allowed_ips@,
            "none - /api/v1/usage/exceeded is disabled"@,
        ),
        "  max ips per request "@ + decimal(config.limits.max_ips_per_request as nat),
        "  distribution window "@ + signed_decimal(
            config.limits.distribution_max_age_days as int,
        ) + " days"@,
    ]
}

/// A line of the report: a label and a value.
fn line(label: &str, value: &str) -> (out: String)
    ensures
        out@ == label@ + value@,
{
    let mut out = label.to_owned();
    out.append(value);
    out
}

/// The report on a configuration that passed its checks.
pub fn check_report(path: &str, loaded: &LoadedConfig) -> (out: String)
    requires
        loaded.wf(),
    ensures
        out@ == joined(report_lines(path@, *loaded), "\n"@),
{
    let config = &loaded.config;
    let mut lines: Vec<String> = Vec::new();

    let mut first = line("config ", path);
    first.append(" is valid");
    lines.push(first);

    let listen = listen_address(&config.server);
    lines.push(line("  listen              ", listen.as_str()));

    let target = database_target_text(&config.database);
    let mut database = line("  database            ", target.as_str());
    database.append(" (user=");
    database.append(config.database.user.as_str());
    database.append(", max_connections=");
    let connections = decimal_text(config.database.max_connections as u64);
    database.append(connections.as_str());
    database.append(")");
    lines.push(database);

    let count = decimal_text(config.auth.keys.len() as u64);
    let mut keys = line("  api keys            ", count.as_str());
    keys.append(" configured: ");
    let names = join(&collect_key_names(&config.auth.keys), ", ");
    keys.append(names.as_str());
    lines.push(keys);

    let proxies = networks_or_text(
        &loaded.trusted_proxies,
        "none (client IP is always the TCP peer address)",
    );
    lines.push(line("  trusted proxies     ", proxies.as_str()));

    let sources = networks_or_text(
        &loaded.threshold_allowed_ips,
        "none - /api/v1/usage/exceeded is disabled",
    );
    lines.push(line("  threshold sources   ", sources.as_str()));

    let max_ips = decimal_text(config.limits.max_ips_per_request as u64);
    lines.push(line("  max ips per request ", max_ips.as_str()));

    let age = signed_decimal_text(config.limits.distribution_max_age_days);
    let mut window = line("  distribution window ", age.as_str());
    window.append(" days");
    lines.push(window);

    assert(views(lines@) =~= report_lines(path@, *loaded));
    join(&lines, "\n")
}

/// The target of a connection is host, port and name: a colon between the first two and a slash
/// before the last.
pub proof fn law_target_is_host_port_and_name(database: DatabaseConfig)
    ensures
        host_port(database.host@, database.port) == database.host@ + ":"@ + decimal(
            database.port as nat,
        ),
        database_target(database) == database.host@ + ":"@ + decimal(database.port as nat) + "/"@
            + database.name@,
{
}

/// The names are those of the keys, one for each and in their order.
pub proof fn law_names_are_those_of_the_keys(keys: Seq<ApiKeyConfig>)
    ensures
        key_names(keys).len() == keys.len(),
        forall|i: int| 0 <= i < keys.len() ==> #[trigger] key_names(keys)[i] == keys[i].name@,
{
}

/// A list of networks is shown whole and in its order, with commas between its networks, each as
/// address, slash and prefix length; an empty list is shown as what stands for none.
pub proof fn law_networks_are_shown_in_order(
    net: IpNetwork,
    rest: Seq<IpNetwork>,
    none: Seq<char>,
)
    ensures
        networks_or(Seq::<IpNetwork>::empty(), none) == none,
        networks_or(seq![net], none) == address_text(net.addr) + seq!['/'] + decimal(
            net.prefix as nat,
        ),
        rest.len() > 0 ==> networks_or(seq![net] + rest, none) == address_text(net.addr) + seq!['/']
            + decimal(net.prefix as nat) + ", "@ + networks_or(rest, none),
{
    let texts = rest.map_values(|net: IpNetwork| network_text(net));
    let first = network_text(net);
    law_join_from_the_left(first, texts, ", "@);
    assert(seq![net].map_values(|net: IpNetwork| network_text(net)) =~= seq![first]);
    assert((seq![net] + rest).map_values(|net: IpNetwork| network_text(net)) =~= seq![first]
        + texts);
}

/// The report shows the values in effect: of each line, behind its label, the value that the
/// service would use.
pub proof fn law_report_shows_the_values_in_effect(path: Seq<char>, loaded: LoadedConfig)
    ensures
        ({
            let lines = report_lines(path, loaded);
            let config = loaded.config;
            &&& lines.len() == 8
            &&& lines[0] == "config "@ + path + " is valid"@
            &&& lines[1] == "  listen              "@ + (config.server.host@ + ":"@ + decimal(
                config.server.port as nat,
            ))
            &&& lines[2] == "  database            "@ + (config.database.host@ + ":"@ + decimal(
                config.database.port as nat,
            ) + "/"@ + config.database.name@) + " (user="@ + config.database.user@
                + ", max_connections="@ + decimal(config.database.max_connections as nat) + ")"@
            &&& lines[3] == "  api keys            "@ + decimal(config.auth.keys@.len())
                + " configured: "@ + joined(key_names(config.auth.keys@), ", "@)
            &&& loaded.trusted_proxies@.len() == 0 ==> lines[4]
                == "  trusted proxies     "@ + "none (client IP is always the TCP peer address)"@
            &&& loaded.trusted_proxies@.len() > 0 ==> lines[4] == "  trusted proxies     "@
                + networks_or(loaded.trusted_proxies@, Seq::<char>::empty())
            &&& loaded.threshold_allowed_ips@.len() == 0 ==> lines[5]
                == "  threshold sources   "@ + "none - /api/v1/usage/exceeded is disabled"@
            &&& loaded.threshold_allowed_ips@.len() > 0 ==> lines[5] == "  threshold sources   "@
                + networks_or(loaded.threshold_allowed_ips@, Seq::<char>::empty())
            &&& lines[6] == "  max ips per request "@ + decimal(
                config.limits.max_ips_per_request as nat,
            )
            &&& lines[7] == "  distribution window "@ + signed_decimal(
                config.limits.distribution_max_age_days as int,
            ) + " days"@
        }),
{
}

/// The report shows neither the password of the database nor an API key: configurations
/// that differ in these alone have the same report.
pub proof fn law_report_hides_secrets(path: Seq<char>, a: LoadedConfig, b: LoadedConfig)
    requires
        a.config.server == b.config.server,
        a.config.database.host == b.config.database.host,
        a.config.database.port == b.config.database.port,
        a.config.database.name == b.config.database.name,
        a.config.database.user == b.config.database.user,
        a.config.database.max_connections == b.config.database.max_connections,
        key_names(a.config.auth.keys@) == key_names(b.config.auth.keys@),
        a.config.limits == b.config.limits,
        a.trusted_proxies == b.trusted_proxies,
        a.threshold_allowed_ips == b.threshold_allowed_ips,
    ensures
        report_lines(path, a) == report_lines(path, b),
{
    assert(key_names(a.config.auth.keys@).len() == a.config.auth.keys@.len());
    assert(key_names(b.config.auth.keys@).len() == b.config.auth.keys@.len());
}

/// What to do about a missing configuration file.
pub open spec fn missing_file_hint() -> Seq<char> {
    "\n\nhint: copy the template, then fill in the database credentials and API keys:\n    cp config.example.toml config.toml\n\nor point --config at another path (see --help)"@
}

/// What a configuration that cannot be used is reported as: what is wrong, then the cause
/// behind it or, for a missing file, what to do.
pub open spec fn failure_text(label: Seq<char>, err: ConfigErrorView) -> Seq<char> {
    let first = label + err.message();
    match err {
        ConfigErrorView::NotFound { .. } => first + missing_file_hint(),
        _ => match err.cause() {
            Some(cause) => first + "\n  caused by: "@ + cause,
            None => first,
        },
    }
}

/// A failure is reported as its message behind the label, with the cause below it where there is
/// one, and with what to do where the file is missing; no other failure has the advice.
pub proof fn law_failure_is_reported_with_its_cause(label: Seq<char>, err: ConfigErrorView)
    ensures
        match err {
            ConfigErrorView::NotFound { path } => failure_text(label, err) == label
                + ("config file not found: "@ + path) + missing_file_hint(),
            ConfigErrorView::Read { path, cause } => failure_text(label, err) == label
                + ("cannot read config file "@ + path) + "\n  caused by: "@ + cause,
            ConfigErrorView::Parse(cause) => failure_text(label, err) == label
                + ("invalid config file syntax: "@ + cause) + "\n  caused by: "@ + cause,
            ConfigErrorView::NoApiKeys => failure_text(label, err) == label
                + "auth.keys must not be empty; at least one API key is required"@,
            ConfigErrorView::EmptyApiKey(name) => failure_text(label, err) == label
                + ("API key \""@ + name + "\" has an empty key field"@),
            ConfigErrorView::BadNetwork { field, value } => failure_text(label, err) == label
                + (field + ": \""@ + value + "\" is not a valid IP address or CIDR"@),
        },
{
}

/// What a configuration that cannot be used is reported as, behind a label such as
/// `check failed: `.
pub fn failure_report(label: &str, err: &ConfigError) -> (out: String)
    ensures
        out@ == failure_text(label@, err@),
{
    let mut out = label.to_owned();
    let message = err.message();
    out.append(message.as_str());
    let missing = match err {
        ConfigError::NotFound { .. } => true,
        _ => false,
    };
    if missing {
        out.append(
            "\n\nhint: copy the template, then fill in the database credentials and API keys:\n    cp config.example.toml config.toml\n\nor point --config at another path (see --help)",
        );
        return out;
    }
    match err.cause() {
        Some(cause) => {
            out.append("\n  caused by: ");
            out.append(cause.as_str());
        },
        None => {},
    }
    out
}

} // verus!
