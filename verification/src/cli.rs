//! The executor's command line: arguments, and what each way through a run
//! prints and returns.
//!
//! Configuration comes from a positional path, `--config` or
//! `--config-base64` (base64 wins, then the flag, then the position);
//! `--dry-run` validates and ends; the command's output passes through
//! verbatim; the guest's exit code becomes the process's; infrastructure
//! failures print a one-line JSON envelope; a timeout is exit -1 with the
//! envelope.

use vstd::prelude::*;
use vstd::string::*;
use crate::paths::texts;
use crate::text::{chars_of, same_text};

verus! {

/// Default guest image directory.
pub const DEFAULT_GUEST_IMAGE_DIR: &'static str = "/opt/mxc/vz-guest";

/// Environment variable naming the address of an already-running guest agent.
/// For testing only: it bypasses the machine entirely.
pub const AGENT_TCP_ENV: &'static str = "MXC_VZ_AGENT_TCP";

pub const USAGE: &'static str = "usage: vz-exec [CONFIG_PATH] [--config <path>] [--config-base64 <b64>] [--dry-run] [--debug] [--experimental] [--allow-testing-features] [--log-file <path>] [--guest-image-dir <path>] [--probe]";

#[derive(Clone, Debug, PartialEq, Eq)]
pub enum ConfigSource {
    Path(String),
    Base64(String),
}

#[derive(Clone, Debug, Default, PartialEq, Eq)]
pub struct Cli {
    pub config: Option<ConfigSource>,
    pub debug: bool,
    pub experimental: bool,
    pub allow_testing_features: bool,
    pub dry_run: bool,
    pub probe: bool,
    pub log_file: Option<String>,
    pub guest_image_dir: Option<String>,
}

/// A usage error: printed with the usage line, exit 2.
#[derive(Clone, Debug, PartialEq, Eq)]
pub struct UsageError(pub String);

/// Where a configuration comes from.
pub enum ConfigModel {
    Path(Seq<char>),
    Base64(Seq<char>),
}

impl View for ConfigSource {
    type V = ConfigModel;

    open spec fn view(&self) -> ConfigModel {
        match self {
            ConfigSource::Path(path) => ConfigModel::Path(path@),
            ConfigSource::Base64(text) => ConfigModel::Base64(text@),
        }
    }
}

/// What the arguments read so far say.
pub struct ArgsModel {
    pub positional: Option<Seq<char>>,
    pub config: Option<Seq<char>>,
    pub base64: Option<Seq<char>>,
    pub debug: bool,
    pub experimental: bool,
    pub allow_testing_features: bool,
    pub dry_run: bool,
    pub probe: bool,
    pub log_file: Option<Seq<char>>,
    pub guest_image_dir: Option<Seq<char>>,
}

pub open spec fn no_args() -> ArgsModel {
    ArgsModel {
        positional: None,
        config: None,
        base64: None,
        debug: false,
        experimental: false,
        allow_testing_features: false,
        dry_run: false,
        probe: false,
        log_file: None,
        guest_image_dir: None,
    }
}

/// The flags that take the next argument for their value.
pub open spec fn takes_value(arg: Seq<char>) -> bool {
    arg == "--config"@ || arg == "--config-base64"@ || arg == "--log-file"@ || arg
        == "--guest-image-dir"@
}

/// The flags that stand alone.
pub open spec fn is_switch(arg: Seq<char>) -> bool {
    arg == "--debug"@ || arg == "--experimental"@ || arg == "--allow-testing-features"@ || arg
        == "--dry-run"@ || arg == "--probe"@
}

impl ArgsModel {
    pub open spec fn with_value(self, flag: Seq<char>, value: Seq<char>) -> ArgsModel {
        if flag == "--config"@ {
            ArgsModel { config: Some(value), ..self }
        } else if flag == "--config-base64"@ {
            ArgsModel { base64: Some(value), ..self }
        } else if flag == "--log-file"@ {
            ArgsModel { log_file: Some(value), ..self }
        } else {
            ArgsModel { guest_image_dir: Some(value), ..self }
        }
    }

    pub open spec fn with_switch(self, flag: Seq<char>) -> ArgsModel {
        if flag == "--debug"@ {
            ArgsModel { debug: true, ..self }
        } else if flag == "--experimental"@ {
            ArgsModel { experimental: true, ..self }
        } else if flag == "--allow-testing-features"@ {
            ArgsModel { allow_testing_features: true, ..self }
        } else if flag == "--dry-run"@ {
            ArgsModel { dry_run: true, ..self }
        } else {
            ArgsModel { probe: true, ..self }
        }
    }

    /// The configuration that applies: base64 over the flag over the position.
    pub open spec fn chosen(self) -> Option<ConfigModel> {
        match (self.base64, self.config, self.positional) {
            (Some(text), _, _) => Some(ConfigModel::Base64(text)),
            (None, Some(path), _) => Some(ConfigModel::Path(path)),
            (None, None, Some(path)) => Some(ConfigModel::Path(path)),
            (None, None, None) => None,
        }
    }
}

/// What `args` say behind arguments that were already read, or the usage
/// error that they end in.
pub open spec fn read_args(args: Seq<Seq<char>>, so_far: ArgsModel) -> Result<ArgsModel, Seq<char>>
    decreases args.len(),
{
    if args.len() == 0 {
        Ok(so_far)
    } else if takes_value(args[0]) {
        if args.len() < 2 {
            Err(args[0] + " requires a value"@)
        } else {
            read_args(args.skip(2), so_far.with_value(args[0], args[1]))
        }
    } else if is_switch(args[0]) {
        read_args(args.skip(1), so_far.with_switch(args[0]))
    } else if args[0].len() > 0 && args[0][0] == '-' {
        Err("unknown flag: "@ + args[0])
    } else if so_far.positional is None {
        read_args(args.skip(1), ArgsModel { positional: Some(args[0]), ..so_far })
    } else {
        Err("unexpected extra argument: "@ + args[0])
    }
}

pub open spec fn text_of(text: Option<String>) -> Option<Seq<char>> {
    match text {
        Some(s) => Some(s@),
        None => None,
    }
}

pub open spec fn config_of(config: Option<ConfigSource>) -> Option<ConfigModel> {
    match config {
        Some(c) => Some(c@),
        None => None,
    }
}

/// Whether `cli` holds what the arguments say.
pub open spec fn holds_args(cli: Cli, args: ArgsModel) -> bool {
    &&& config_of(cli.config) == args.chosen()
    &&& cli.debug == args.debug
    &&& cli.experimental == args.experimental
    &&& cli.allow_testing_features == args.allow_testing_features
    &&& cli.dry_run == args.dry_run
    &&& cli.probe == args.probe
    &&& text_of(cli.log_file) == args.log_file
    &&& text_of(cli.guest_image_dir) == args.guest_image_dir
}

/// Arguments as they are being read.
struct Args {
    positional: Option<String>,
    config: Option<String>,
    base64: Option<String>,
    debug: bool,
    experimental: bool,
    allow_testing_features: bool,
    dry_run: bool,
    probe: bool,
    log_file: Option<String>,
    guest_image_dir: Option<String>,
}

impl View for Args {
    type V = ArgsModel;

    closed spec fn view(&self) -> ArgsModel {
        ArgsModel {
            positional: text_of(self.positional),
            config: text_of(self.config),
            base64: text_of(self.base64),
            debug: self.debug,
            experimental: self.experimental,
            allow_testing_features: self.allow_testing_features,
            dry_run: self.dry_run,
            probe: self.probe,
            log_file: text_of(self.log_file),
            guest_image_dir: text_of(self.guest_image_dir),
        }
    }
}

fn is_value_flag(arg: &str) -> (yes: bool)
    ensures
        yes == takes_value(arg@),
{
    same_text(arg, "--config") || same_text(arg, "--config-base64") || same_text(arg, "--log-file")
        || same_text(arg, "--guest-image-dir")
}

impl Args {
    fn set_value(&mut self, flag: &str, value: &String)
        requires
            takes_value(flag@),
        ensures
            final(self)@ == old(self)@.with_value(flag@, value@),
    {
        if same_text(flag, "--config") {
            self.config = Some(value.clone());
        } else if same_text(flag, "--config-base64") {
            self.base64 = Some(value.clone());
        } else if same_text(flag, "--log-file") {
            self.log_file = Some(value.clone());
        } else {
            self.guest_image_dir = Some(value.clone());
        }
    }

    /// Sets a switch; returns whether `flag` is one.
    fn set_switch(&mut self, flag: &str) -> (known: bool)
        ensures
            known == is_switch(flag@),
            final(self)@ == if known {
                old(self)@.with_switch(flag@)
            } else {
                old(self)@
            },
    {
        if same_text(flag, "--debug") {
            self.debug = true;
        } else if same_text(flag, "--experimental") {
            self.experimental = true;
        } else if same_text(flag, "--allow-testing-features") {
            self.allow_testing_features = true;
        } else if same_text(flag, "--dry-run") {
            self.dry_run = true;
        } else if same_text(flag, "--probe") {
            self.probe = true;
        } else {
            return false;
        }
        true
    }
}

fn starts_with_dash(arg: &str) -> (yes: bool)
    ensures
        yes == (arg@.len() > 0 && arg@[0] == '-'),
{
    let chars: Vec<char> = chars_of(arg);
    chars.len() > 0 && chars[0] == '-'
}

/// Parses the arguments behind the program's name.
pub fn parse_args(args: Vec<String>) -> (result: Result<Cli, UsageError>)
    ensures
        match read_args(texts(args@), no_args()) {
            Ok(model) => result matches Ok(cli) && holds_args(cli, model),
            Err(text) => result matches Err(error) && error.0@ == text,
        },
{
    let ghost all = texts(args@);
    let ghost whole = read_args(all, no_args());
    let mut read: Args = Args {
        positional: None,
        config: None,
        base64: None,
        debug: false,
        experimental: false,
        allow_testing_features: false,
        dry_run: false,
        probe: false,
        log_file: None,
        guest_image_dir: None,
    };
    let mut i: usize = 0;
    assert(all.skip(0) =~= all);
    while i < args.len()
        invariant
            i <= args@.len(),
            all == texts(args@),
            whole == read_args(all, no_args()),
            whole == read_args(all.skip(i as int), read@),
        decreases args@.len() - i,
    {
        let ghost rest = all.skip(i as int);
        let arg: &str = args[i].as_str();
        assert(rest[0] == arg@);
        if is_value_flag(arg) {
            if args.len() - i < 2 {
                let mut m: String = arg.to_owned();
                m.append(" requires a value");
                return Err(UsageError(m));
            }
            assert(rest[1] == args@[i + 1]@);
            assert(rest.skip(2) =~= all.skip(i + 2));
            read.set_value(arg, &args[i + 1]);
            i = i + 2;
        } else {
            assert(rest.skip(1) =~= all.skip(i + 1));
            if !read.set_switch(arg) {
                if starts_with_dash(arg) {
                    let mut m: String = "unknown flag: ".to_string();
                    m.append(arg);
                    return Err(UsageError(m));
                }
                if read.positional.is_some() {
                    let mut m: String = "unexpected extra argument: ".to_string();
                    m.append(arg);
                    return Err(UsageError(m));
                }
                read.positional = Some(args[i].clone());
            }
            i = i + 1;
        }
    }
    let config: Option<ConfigSource> = match read.base64 {
        Some(text) => Some(ConfigSource::Base64(text)),
        None => match read.config {
            Some(path) => Some(ConfigSource::Path(path)),
            None => match read.positional {
                Some(path) => Some(ConfigSource::Path(path)),
                None => None,
            },
        },
    };
    Ok(
        Cli {
            config,
            debug: read.debug,
            experimental: read.experimental,
            allow_testing_features: read.allow_testing_features,
            dry_run: read.dry_run,
            probe: read.probe,
            log_file: read.log_file,
            guest_image_dir: read.guest_image_dir,
        },
    )
}

// ---------------------------------------------------------------------------
// Laws
// ---------------------------------------------------------------------------

/// What each flag with a value does, and nothing else: it takes the argument
/// behind it, whatever that looks like, and a later one wins over an earlier.
/// Without an argument behind it, it is a usage error.
pub proof fn flags_take_the_next_argument(
    value: Seq<char>,
    rest: Seq<Seq<char>>,
    so_far: ArgsModel,
)
    ensures
        read_args(seq!["--config"@, value] + rest, so_far) == read_args(
            rest,
            ArgsModel { config: Some(value), ..so_far },
        ),
        read_args(seq!["--config-base64"@, value] + rest, so_far) == read_args(
            rest,
            ArgsModel { base64: Some(value), ..so_far },
        ),
        read_args(seq!["--log-file"@, value] + rest, so_far) == read_args(
            rest,
            ArgsModel { log_file: Some(value), ..so_far },
        ),
        read_args(seq!["--guest-image-dir"@, value] + rest, so_far) == read_args(
            rest,
            ArgsModel { guest_image_dir: Some(value), ..so_far },
        ),
        read_args(seq!["--config"@], so_far) == Err::<ArgsModel, Seq<char>>(
            "--config"@ + " requires a value"@,
        ),
        read_args(seq!["--config-base64"@], so_far) == Err::<ArgsModel, Seq<char>>(
            "--config-base64"@ + " requires a value"@,
        ),
        read_args(seq!["--log-file"@], so_far) == Err::<ArgsModel, Seq<char>>(
            "--log-file"@ + " requires a value"@,
        ),
        read_args(seq!["--guest-image-dir"@], so_far) == Err::<ArgsModel, Seq<char>>(
            "--guest-image-dir"@ + " requires a value"@,
        ),
        read_args(Seq::empty(), so_far) == Ok::<ArgsModel, Seq<char>>(so_far),
{
    flags_differ();
    assert((seq!["--config"@, value] + rest).skip(2) =~= rest);
    assert((seq!["--config-base64"@, value] + rest).skip(2) =~= rest);
    assert((seq!["--log-file"@, value] + rest).skip(2) =~= rest);
    assert((seq!["--guest-image-dir"@, value] + rest).skip(2) =~= rest);
}

/// What each switch does, and nothing else: it turns itself on.
pub proof fn switches_turn_themselves_on(rest: Seq<Seq<char>>, so_far: ArgsModel)
    ensures
        read_args(seq!["--debug"@] + rest, so_far) == read_args(
            rest,
            ArgsModel { debug: true, ..so_far },
        ),
        read_args(seq!["--experimental"@] + rest, so_far) == read_args(
            rest,
            ArgsModel { experimental: true, ..so_far },
        ),
        read_args(seq!["--allow-testing-features"@] + rest, so_far) == read_args(
            rest,
            ArgsModel { allow_testing_features: true, ..so_far },
        ),
        read_args(seq!["--dry-run"@] + rest, so_far) == read_args(
            rest,
            ArgsModel { dry_run: true, ..so_far },
        ),
        read_args(seq!["--probe"@] + rest, so_far) == read_args(
            rest,
            ArgsModel { probe: true, ..so_far },
        ),
{
    flags_differ();
    switches_differ();
    assert((seq!["--debug"@] + rest).skip(1) =~= rest);
    assert((seq!["--experimental"@] + rest).skip(1) =~= rest);
    assert((seq!["--allow-testing-features"@] + rest).skip(1) =~= rest);
    assert((seq!["--dry-run"@] + rest).skip(1) =~= rest);
    assert((seq!["--probe"@] + rest).skip(1) =~= rest);
}

/// What any other argument does: one that begins with a dash is an unknown
/// flag; the first that does not is the configuration's path; and a second one
/// is too many.
pub proof fn other_arguments_are_positional(
    arg: Seq<char>,
    rest: Seq<Seq<char>>,
    so_far: ArgsModel,
)
    requires
        arg != "--config"@ && arg != "--config-base64"@ && arg != "--log-file"@ && arg
            != "--guest-image-dir"@,
        arg != "--debug"@ && arg != "--experimental"@ && arg != "--allow-testing-features"@ && arg
            != "--dry-run"@ && arg != "--probe"@,
    ensures
        arg.len() > 0 && arg[0] == '-' ==> read_args(seq![arg] + rest, so_far) == Err::<
            ArgsModel,
            Seq<char>,
        >("unknown flag: "@ + arg),
        (arg.len() == 0 || arg[0] != '-') && so_far.positional is None ==> read_args(
            seq![arg] + rest,
            so_far,
        ) == read_args(rest, ArgsModel { positional: Some(arg), ..so_far }),
        (arg.len() == 0 || arg[0] != '-') && so_far.positional is Some ==> read_args(
            seq![arg] + rest,
            so_far,
        ) == Err::<ArgsModel, Seq<char>>("unexpected extra argument: "@ + arg),
{
    assert((seq![arg] + rest).skip(1) =~= rest);
}

/// What is read ends up in its own place: each switch and each value as it was
/// given, and for the configuration the base64 text where there is one, else
/// the path of the flag, else the path by position.
pub proof fn arguments_end_up_in_place(cli: Cli, args: ArgsModel)
    requires
        holds_args(cli, args),
    ensures
        cli.debug == args.debug,
        cli.experimental == args.experimental,
        cli.allow_testing_features == args.allow_testing_features,
        cli.dry_run == args.dry_run,
        cli.probe == args.probe,
        args.log_file == (match cli.log_file {
            Some(path) => Some(path@),
            None => None,
        }),
        args.guest_image_dir == (match cli.guest_image_dir {
            Some(path) => Some(path@),
            None => None,
        }),
        args.base64 matches Some(text) ==> (cli.config matches Some(ConfigSource::Base64(given))
            && given@ == text),
        args.config matches Some(path) ==> args.base64 is None ==> (cli.config matches Some(
            ConfigSource::Path(given),
        ) && given@ == path),
        args.positional matches Some(path) ==> args.base64 is None && args.config is None ==> (
        cli.config matches Some(ConfigSource::Path(given)) && given@ == path),
        args.base64 is None && args.config is None && args.positional is None ==> cli.config
            is None,
        no_args().positional is None && no_args().config is None && no_args().base64 is None
            && no_args().log_file is None && no_args().guest_image_dir is None,
        !no_args().debug && !no_args().experimental && !no_args().allow_testing_features
            && !no_args().dry_run && !no_args().probe,
{
}

proof fn flags_differ()
    ensures
        "--config"@ != "--config-base64"@,
        "--config"@ != "--log-file"@,
        "--config"@ != "--guest-image-dir"@,
        "--config-base64"@ != "--log-file"@,
        "--config-base64"@ != "--guest-image-dir"@,
        "--log-file"@ != "--guest-image-dir"@,
        !takes_value("--debug"@),
        !takes_value("--experimental"@),
        !takes_value("--allow-testing-features"@),
        !takes_value("--dry-run"@),
        !takes_value("--probe"@),
{
    reveal_strlit("--config");
    reveal_strlit("--config-base64");
    reveal_strlit("--log-file");
    reveal_strlit("--guest-image-dir");
    reveal_strlit("--debug");
    reveal_strlit("--experimental");
    reveal_strlit("--allow-testing-features");
    reveal_strlit("--dry-run");
    reveal_strlit("--probe");
    assert("--config"@.len() == 8 && "--config-base64"@.len() == 15 && "--log-file"@.len() == 10
        && "--guest-image-dir"@.len() == 17);
    assert("--debug"@.len() == 7 && "--experimental"@.len() == 14
        && "--allow-testing-features"@.len() == 24 && "--dry-run"@.len() == 9 && "--probe"@.len()
        == 7);
}

proof fn switches_differ()
    ensures
        "--debug"@ != "--experimental"@,
        "--debug"@ != "--allow-testing-features"@,
        "--debug"@ != "--dry-run"@,
        "--debug"@ != "--probe"@,
        "--experimental"@ != "--allow-testing-features"@,
        "--experimental"@ != "--dry-run"@,
        "--experimental"@ != "--probe"@,
        "--allow-testing-features"@ != "--dry-run"@,
        "--allow-testing-features"@ != "--probe"@,
        "--dry-run"@ != "--probe"@,
{
    reveal_strlit("--debug");
    reveal_strlit("--experimental");
    reveal_strlit("--allow-testing-features");
    reveal_strlit("--dry-run");
    reveal_strlit("--probe");
    assert("--debug"@.len() == 7 && "--experimental"@.len() == 14
        && "--allow-testing-features"@.len() == 24 && "--dry-run"@.len() == 9 && "--probe"@.len()
        == 7);
    assert("--debug"@[2] == 'd' && "--probe"@[2] == 'p');
}

} // verus!
