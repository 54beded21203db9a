//! The server's configuration: what the command line says, and what a
//! configuration file adds to it.
//!
//! The command line is read by `clap`, to which the options are declared:
//!
//! | option                 | value                         | default   |
//! |------------------------|-------------------------------|-----------|
//! | `-a`, `--address`      | the address to bind to        | `0.0.0.0` |
//! | `-p`, `--port`         | the port, from 1 to 65535     | `1131`    |
//! | `-r`, `--root-dir`     | the contents root directory   | `.`       |
//! | `-c`, `--config-file`  | the path of a TOML file       | none      |
//! | `--hash-password`      | a password to hash and print  | none      |
//!
//! `-h` and `--help` ask for the usage text.

use vstd::prelude::*;
use vstd::string::StrSliceExecFns;
use vstd::string::StringExecFns;

verus! {

/// The port that is listened on where none is given.
pub const DEFAULT_PORT: u16 = 1131;

/// The number of workers where the configuration file names none.
pub const DEFAULT_WORKERS: usize = 2;

/// What the command line says.
pub struct Cli {
    /// The address the server binds to.
    pub address: String,
    /// The port the server listens on.
    pub port: u16,
    /// The contents root directory.
    pub root_dir: String,
    /// The path of the configuration file, if one is named.
    pub config_file: Option<String>,
    /// The password to hash and print, if that is what was asked for.
    pub hash_password: Option<String>,
}

/// What a configuration file says. Every entry may be missing.
pub struct TomlConfig {
    pub address: Option<String>,
    pub port: Option<u16>,
    pub root_dir: Option<String>,
    pub cert_path: Option<String>,
    pub key_path: Option<String>,
    pub user_name: Option<String>,
    pub password_hash: Option<String>,
    pub workers: Option<usize>,
}

/// The configuration that the server runs with.
pub struct Config {
    pub address: String,
    pub port: u16,
    pub root_dir: String,
    pub cert_path: Option<String>,
    pub key_path: Option<String>,
    pub user_name: Option<String>,
    pub password_hash: Option<String>,
    pub workers: usize,
}

/// A configuration file that cannot be used.
#[derive(PartialEq, Eq, Structural, Debug, Clone, Copy)]
pub enum ConfigError {
    /// Of the certificate and the key, only one is given.
    MissingCertOrKey,
    /// Of the user name and the password hash, only one is given.
    MissingUserOrHash,
}

/// One option of the command line, as it is declared to the parser.
pub struct OptionSpec {
    /// The long name, without the leading `--`.
    pub name: &'static str,
    /// The short name, if the option has one.
    pub short: Option<char>,
    /// What the usage text says of the option.
    pub help: &'static str,
    /// The value that the option has where it is not given.
    pub default: Option<&'static str>,
}

/// A command line that cannot be used, or that asks for the usage text.
pub enum CliError {
    /// `-h` or `--help` was given; the text is the usage text.
    HelpRequested(String),
    /// The parser refuses the command line; the text says why.
    Rejected(String),
    /// This value is no port.
    InvalidPort(String),
}

/// The mathematical value of a [`CliError`]: its kind, and the value that
/// is no port.
pub ghost enum CliFault {
    HelpRequested,
    Rejected,
    InvalidPort(Seq<char>),
}

impl View for CliError {
    type V = CliFault;

    open spec fn view(&self) -> CliFault {
        match self {
            CliError::HelpRequested(_) => CliFault::HelpRequested,
            CliError::Rejected(_) => CliFault::Rejected,
            CliError::InvalidPort(v) => CliFault::InvalidPort(v@),
        }
    }
}

/// The mathematical value of a [`Cli`].
pub ghost struct CliView {
    pub address: Seq<char>,
    pub port: u16,
    pub root_dir: Seq<char>,
    pub config_file: Option<Seq<char>>,
    pub hash_password: Option<Seq<char>>,
}

/// The view of a text that may be missing.
pub open spec fn opt_view(text: Option<String>) -> Option<Seq<char>> {
    match text {
        Some(t) => Some(t@),
        None => None,
    }
}

impl View for Cli {
    type V = CliView;

    open spec fn view(&self) -> CliView {
        CliView {
            address: self.address@,
            port: self.port,
            root_dir: self.root_dir@,
            config_file: opt_view(self.config_file),
            hash_password: opt_view(self.hash_password),
        }
    }
}

/// The value of a decimal digit.
pub open spec fn digit_value(c: char) -> Option<nat> {
    if '0' <= c && c <= '9' {
        Some((c as u32 - '0' as u32) as nat)
    } else {
        None
    }
}

/// The number that a text of decimal digits stands for; `None` where the
/// text is empty or holds anything but digits.
pub open spec fn decimal_value(text: Seq<char>) -> Option<nat>
    decreases text.len(),
{
    if text.len() == 0 {
        None
    } else if text.len() == 1 {
        digit_value(text[0])
    } else {
        match (decimal_value(text.drop_last()), digit_value(text.last())) {
            (Some(high), Some(low)) => Some(high * 10 + low),
            _ => None,
        }
    }
}

/// The digits of a port: the text without a leading `+`.
pub open spec fn port_digits(text: Seq<char>) -> Seq<char> {
    if text.len() > 0 && text[0] == '+' {
        text.subrange(1, text.len() as int)
    } else {
        text
    }
}

/// The port that a text of digits stands for: a decimal number from 1 to
/// 65535.
pub open spec fn port_of_digits(digits: Seq<char>) -> Option<u16> {
    match decimal_value(digits) {
        Some(v) => if 1 <= v && v <= 65535 {
            Some(v as u16)
        } else {
            None
        },
        None => None,
    }
}

/// The port that a text stands for: a decimal number from 1 to 65535, with
/// or without a leading `+`.
pub open spec fn port_value(text: Seq<char>) -> Option<u16> {
    port_of_digits(port_digits(text))
}

/// The name under which the program is known to the parser.
pub open spec fn program_name() -> Seq<char> {
    "my-cont-srv"@
}

/// The options of the command line, as values: name, short name, help
/// text and default.
pub open spec fn cli_table() -> Seq<(Seq<char>, Option<char>, Seq<char>, Option<Seq<char>>)> {
    seq![
        (
            "address"@,
            Some('a'),
            "The address the server bind to. Specify '::' to bind to all addresses"@,
            Some("0.0.0.0"@),
        ),
        ("port"@, Some('p'), "The server listening port"@, Some("1131"@)),
        ("root-dir"@, Some('r'), "The contents root directory"@, Some("."@)),
        ("config-file"@, Some('c'), "The path of the config file with toml format"@, None),
        (
            "hash-password"@,
            None,
            "Hash the password and exit after printing the result. The hash can be used in the config file."@,
            None,
        ),
    ]
}

/// The value of a declared option.
pub open spec fn option_view(o: OptionSpec) -> (Seq<char>, Option<char>, Seq<char>, Option<Seq<char>>) {
    (
        o.name@,
        o.short,
        o.help@,
        match o.default {
            Some(d) => Some(d@),
            None => None,
        },
    )
}

/// The values of a list of declared options.
pub open spec fn table_views(options: Seq<OptionSpec>) -> Seq<
    (Seq<char>, Option<char>, Seq<char>, Option<Seq<char>>),
> {
    Seq::new(options.len(), |i: int| option_view(options[i]))
}

/// The texts of a list of arguments.
pub open spec fn arg_views(args: Seq<String>) -> Seq<Seq<char>> {
    Seq::new(args.len(), |i: int| args[i]@)
}

/// The texts of a list of values that may be missing.
pub open spec fn value_views(values: Seq<Option<String>>) -> Seq<Option<Seq<char>>> {
    Seq::new(values.len(), |i: int| opt_view(values[i]))
}

/// What the parser makes of a command line, for a program name and a table
/// of options: the value of each option, in the table's order, or, where it
/// stops, whether that is because the usage text was asked for.
pub uninterp spec fn clap_parsed(
    program: Seq<char>,
    table: Seq<(Seq<char>, Option<char>, Seq<char>, Option<Seq<char>>)>,
    args: Seq<Seq<char>>,
) -> Result<Seq<Option<Seq<char>>>, bool>;

/// What the values of the five options say: the command line's value, or
/// the fault that the port's value is no port. A missing value gives way to
/// the option's default.
pub open spec fn cli_of(values: Seq<Option<Seq<char>>>) -> Result<CliView, CliFault>
    recommends
        values.len() == 5,
{
    let port = match values[1] {
        Some(text) => port_value(text),
        None => Some(DEFAULT_PORT),
    };
    match port {
        Some(p) => Ok(
            CliView {
                address: match values[0] {
                    Some(a) => a,
                    None => "0.0.0.0"@,
                },
                port: p,
                root_dir: match values[2] {
                    Some(r) => r,
                    None => "."@,
                },
                config_file: values[3],
                hash_password: values[4],
            },
        ),
        None => Err(CliFault::InvalidPort(values[1]->Some_0)),
    }
}

/// What a command line says: what the parser makes of it, and of that what
/// the values say.
pub open spec fn parsed_cli(args: Seq<Seq<char>>) -> Result<CliView, CliFault> {
    match clap_parsed(program_name(), cli_table(), args) {
        Ok(values) => cli_of(values),
        Err(help) => if help {
            Err(CliFault::HelpRequested)
        } else {
            Err(CliFault::Rejected)
        },
    }
}

/// One digit more keeps a number that is too large for a port too large.
proof fn lemma_decimal_prefix(text: Seq<char>, k: int)
    requires
        1 <= k <= text.len(),
        decimal_value(text.subrange(0, k)) is None || decimal_value(text.subrange(0, k))->Some_0
            > 65535,
    ensures
        decimal_value(text) is None || decimal_value(text)->Some_0 > 65535,
    decreases text.len() - k,
{
    if k < text.len() {
        let longer = text.subrange(0, k + 1);
        assert(longer.drop_last() =~= text.subrange(0, k));
        lemma_decimal_prefix(text, k + 1);
    } else {
        assert(text.subrange(0, k) =~= text);
    }
}

/// Reads a port from its digits.
fn parse_port_digits(text: &str) -> (port: Option<u16>)
    ensures
        port == port_of_digits(text@),
{
    let n = text.unicode_len();
    if n == 0 {
        return None;
    }
    let mut acc: u32 = 0;
    let mut i: usize = 0;
    while i < n
        invariant
            i <= n,
            n == text@.len(),
            n > 0,
            acc <= 65535,
            i > 0 ==> decimal_value(text@.subrange(0, i as int)) == Some(acc as nat),
            i == 0 ==> acc == 0,
        decreases n - i,
    {
        let c = text.get_char(i);
        let ghost head = text@.subrange(0, i as int + 1);
        proof {
            assert(head.last() == c);
            assert(head.drop_last() =~= text@.subrange(0, i as int));
            if i == 0 {
                assert(head.len() == 1);
                assert(head[0] == c);
            }
        }
        if c < '0' || c > '9' {
            proof {
                assert(decimal_value(head) is None);
                lemma_decimal_prefix(text@, i as int + 1);
            }
            return None;
        }
        let d: u32 = c as u32 - '0' as u32;
        let next: u32 = acc * 10 + d;
        proof {
            assert(decimal_value(head) == Some(next as nat));
        }
        if next > 65535 {
            proof {
                lemma_decimal_prefix(text@, i as int + 1);
            }
            return None;
        }
        acc = next;
        i += 1;
    }
    proof {
        assert(text@.subrange(0, n as int) =~= text@);
    }
    if acc == 0 {
        None
    } else {
        Some(acc as u16)
    }
}

/// Reads a port.
pub fn parse_port(text: &str) -> (port: Option<u16>)
    ensures
        port == port_value(text@),
{
    let n = text.unicode_len();
    if n > 0 && text.get_char(0) == '+' {
        parse_port_digits(text.substring_char(1, n))
    } else {
        parse_port_digits(text)
    }
}

/// The options of the command line, as they are declared to the parser.
pub fn cli_options() -> (options: Vec<OptionSpec>)
    ensures
        table_views(options@) == cli_table(),
{
    let options = vec![
        OptionSpec {
            name: "address",
            short: Some('a'),
            help: "The address the server bind to. Specify '::' to bind to all addresses",
            default: Some("0.0.0.0"),
        },
        OptionSpec {
            name: "port",
            short: Some('p'),
            help: "The server listening port",
            default: Some("1131"),
        },
        OptionSpec {
            name: "root-dir",
            short: Some('r'),
            help: "The contents root directory",
            default: Some("."),
        },
        OptionSpec {
            name: "config-file",
            short: Some('c'),
            help: "The path of the config file with toml format",
            default: None,
        },
        OptionSpec {
            name: "hash-password",
            short: None,
            help: "Hash the password and exit after printing the result. The hash can be used in the config file.",
            default: None,
        },
    ];
    assert(table_views(options@) =~= cli_table());
    options
}

/// `clap::Command::try_get_matches_from`, on a command built with
/// `Command::new`, `Command::arg` and `Arg::new`, `long`, `short`, `help`,
/// `default_value`, `action` from the table, and `ArgMatches::get_one` for
/// each option. What comes out depends on program name, table and arguments
/// alone; nothing is claimed of the text of a refusal or of the usage text.
/// The contract is for the table of this program only, which meets what the
/// parser asks of a command.
#[verifier::external_body]
fn clap_values(program: &'static str, options: &Vec<OptionSpec>, args: Vec<String>) -> (out: Result<
    Vec<Option<String>>,
    (bool, String),
>)
    requires
        program@ == program_name(),
        table_views(options@) == cli_table(),
    ensures
        match clap_parsed(program@, table_views(options@), arg_views(args@)) {
            Ok(values) => out matches Ok(v) && value_views(v@) == values && v@.len()
                == options@.len(),
            Err(help) => out matches Err(e) && e.0 == help,
        },
{
    let cmd = options.iter().fold(clap::Command::new(program), |c, o| {
        let arg = clap::Arg::new(o.name).long(o.name).short(o.short).help(o.help);
        c.arg(arg.default_value(o.default).action(clap::ArgAction::Set))
    });
    match cmd.try_get_matches_from(args) {
        Ok(m) => Ok(options.iter().map(|o| m.get_one::<String>(o.name).cloned()).collect()),
        Err(e) => Err((e.kind() == clap::error::ErrorKind::DisplayHelp, e.to_string())),
    }
}

/// Puts the command line's value together from the values of its five
/// options. A missing value gives way to the option's default; a port value
/// that is no port is refused.
pub fn cli_from_values(
    address: Option<String>,
    port: Option<String>,
    root_dir: Option<String>,
    config_file: Option<String>,
    hash_password: Option<String>,
) -> (out: Result<Cli, CliError>)
    ensures
        match cli_of(
            seq![
                opt_view(address),
                opt_view(port),
                opt_view(root_dir),
                opt_view(config_file),
                opt_view(hash_password),
            ],
        ) {
            Ok(cli) => out matches Ok(c) && c@ == cli,
            Err(fault) => out matches Err(e) && e@ == fault,
        },
{
    let port = match port {
        Some(text) => match parse_port(text.as_str()) {
            Some(p) => p,
            None => {
                return Err(CliError::InvalidPort(text));
            },
        },
        None => DEFAULT_PORT,
    };
    Ok(
        Cli {
            address: match address {
                Some(a) => a,
                None => String::from_str("0.0.0.0"),
            },
            port,
            root_dir: match root_dir {
                Some(r) => r,
                None => String::from_str("."),
            },
            config_file,
            hash_password,
        },
    )
}

/// Takes the last value off a list; `None` where the list is empty or the
/// value is missing.
fn take_last(values: &mut Vec<Option<String>>) -> (out: Option<String>)
    ensures
        old(values)@.len() > 0 ==> final(values)@ == old(values)@.drop_last() && out == old(
            values,
        )@.last(),
        old(values)@.len() == 0 ==> final(values)@ == old(values)@ && out is None,
{
    match values.pop() {
        Some(v) => v,
        None => None,
    }
}

/// Reads a command line. The first argument is the program's name. The
/// parser decides which forms of options and values it takes; what it
/// refuses ends the reading with [`CliError::Rejected`], `-h` and `--help`
/// end it with [`CliError::HelpRequested`], and a port's value that is no
/// port ends it with [`CliError::InvalidPort`].
pub fn parse_cli_from(args: Vec<String>) -> (out: Result<Cli, CliError>)
    ensures
        match parsed_cli(arg_views(args@)) {
            Ok(cli) => out matches Ok(c) && c@ == cli,
            Err(fault) => out matches Err(e) && e@ == fault,
        },
{
    let options = cli_options();
    match clap_values("my-cont-srv", &options, args) {
        Ok(values) => {
            let mut values = values;
            let ghost all = value_views(values@);
            assert(table_views(options@).len() == options@.len());
            assert(cli_table().len() == 5);
            assert(values@.len() == 5);
            let hash_password = take_last(&mut values);
            let config_file = take_last(&mut values);
            let root_dir = take_last(&mut values);
            let port = take_last(&mut values);
            let address = take_last(&mut values);
            assert(seq![
                opt_view(address),
                opt_view(port),
                opt_view(root_dir),
                opt_view(config_file),
                opt_view(hash_password),
            ] =~= all);
            cli_from_values(address, port, root_dir, config_file, hash_password)
        },
        Err(refusal) => if refusal.0 {
            Err(CliError::HelpRequested(refusal.1))
        } else {
            Err(CliError::Rejected(refusal.1))
        },
    }
}


/// The configuration that the command line and the configuration file give
/// together: what the file says goes before what the command line says, and
/// a file that names only one of certificate and key, or only one of user
/// name and password hash, is refused.
pub open spec fn merged_config(cli: Cli, file: Option<TomlConfig>) -> Result<Config, ConfigError> {
    match file {
        None => Ok(
            Config {
                address: cli.address,
                port: cli.port,
                root_dir: cli.root_dir,
                cert_path: None,
                key_path: None,
                user_name: None,
                password_hash: None,
                workers: DEFAULT_WORKERS,
            },
        ),
        Some(f) => if f.cert_path.is_some() != f.key_path.is_some() {
            Err(ConfigError::MissingCertOrKey)
        } else if f.user_name.is_some() != f.password_hash.is_some() {
            Err(ConfigError::MissingUserOrHash)
        } else {
            Ok(
                Config {
                    address: match f.address {
                        Some(a) => a,
                        None => cli.address,
                    },
                    port: match f.port {
                        Some(p) => p,
                        None => cli.port,
                    },
                    root_dir: match f.root_dir {
                        Some(r) => r,
                        None => cli.root_dir,
                    },
                    cert_path: f.cert_path,
                    key_path: f.key_path,
                    user_name: f.user_name,
                    password_hash: f.password_hash,
                    workers: match f.workers {
                        Some(w) => w,
                        None => DEFAULT_WORKERS,
                    },
                },
            )
        },
    }
}

/// Puts the command line and the content of the configuration file that it
/// names (`None` where it names none) together.
pub fn get_config(cli: Cli, file: Option<TomlConfig>) -> (out: Result<Config, ConfigError>)
    ensures
        out == merged_config(cli, file),
{
    let mut config = Config {
        address: cli.address,
        port: cli.port,
        root_dir: cli.root_dir,
        cert_path: None,
        key_path: None,
        user_name: None,
        password_hash: None,
        workers: DEFAULT_WORKERS,
    };
    if let Some(toml_cfg) = file {
        if toml_cfg.cert_path.is_some() != toml_cfg.key_path.is_some() {
            return Err(ConfigError::MissingCertOrKey);
        }
        if toml_cfg.user_name.is_some() != toml_cfg.password_hash.is_some() {
            return Err(ConfigError::MissingUserOrHash);
        }
        if let Some(address) = toml_cfg.address {
            config.address = address;
        }
        if let Some(port) = toml_cfg.port {
            config.port = port;
        }
        if let Some(dir) = toml_cfg.root_dir {
            config.root_dir = dir;
        }
        if let Some(workers) = toml_cfg.workers {
            config.workers = workers;
        }
        config.cert_path = toml_cfg.cert_path;
        config.key_path = toml_cfg.key_path;
        config.user_name = toml_cfg.user_name;
        config.password_hash = toml_cfg.password_hash;
    }
    Ok(config)
}

impl Config {
    /// Whether requests must carry credentials: a user name and a password
    /// hash are configured.
    pub fn auth_enabled(&self) -> (enabled: bool)
        ensures
            enabled == (self.user_name is Some && self.password_hash is Some),
    {
        self.user_name.is_some() && self.password_hash.is_some()
    }

    /// Whether the server speaks HTTPS: a certificate and a key are
    /// configured.
    pub fn tls_enabled(&self) -> (enabled: bool)
        ensures
            enabled == (self.cert_path is Some && self.key_path is Some),
    {
        self.cert_path.is_some() && self.key_path.is_some()
    }
}

} // verus!
