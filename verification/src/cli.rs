use vstd::prelude::*;
use crate::asset::{Asset, OutputFormat, asset_text_identifies_asset, format_text_identifies_format};
use crate::text::{same_text, concat, texts, join_with, join_texts};

verus! {

/// Where `fetch` downloads the SDN archive from unless `--url` says otherwise.
pub const DEFAULT_SDN_URL: &'static str =
    "https://sanctionslistservice.ofac.treas.gov/api/PublicationPreview/exports/SDN_ADVANCED.ZIP";

/// The SDN file that `fetch` writes and that generation reads by default.
pub const DEFAULT_SDN_FILENAME: &'static str = "sdn_advanced.xml";

/// Settings of the command that writes address lists.
#[derive(Debug, Clone)]
pub struct GenerateArgs {
    pub assets: Vec<Asset>,
    pub sdn: String,
    pub output_formats: Vec<OutputFormat>,
    pub outpath: String,
}

/// Settings of the command that downloads the SDN archive.
#[derive(Debug, Clone)]
pub struct FetchArgs {
    pub output: String,
    pub url: String,
}

/// Which usage text was asked for.
#[derive(Debug, Clone, Copy, PartialEq, Eq, Structural)]
pub enum HelpTopic {
    Generate,
    Fetch,
}

/// What the command line asks the program to do.
#[derive(Debug, Clone)]
pub enum Command {
    Generate(GenerateArgs),
    Fetch(FetchArgs),
    /// Print the usage text of a command and stop.
    Help(HelpTopic),
}

/// Why a request could not be carried out.
#[derive(Debug, Clone)]
pub enum CliError {
    InvalidOutputFormat(String),
    UnrecognizedOption(String),
    InvalidAsset(String),
    /// An option that takes a value came last.
    MissingValue(String),
    UnexpectedFetchArgument(String),
    /// The SDN file at this path does not exist.
    SdnNotFound(String),
    /// No feature type of this name lists addresses.
    FeatureTypeNotFound(String),
    NoXmlInArchive,
    /// The SDN file is not well-formed XML.
    Xml(String),
    /// The archive could not be read.
    Zip(String),
}

/// The mathematical value of `GenerateArgs`.
pub struct GenerateSettings {
    pub assets: Seq<Asset>,
    pub sdn: Seq<char>,
    pub output_formats: Seq<OutputFormat>,
    pub outpath: Seq<char>,
}

/// The mathematical value of `FetchArgs`.
pub struct FetchSettings {
    pub output: Seq<char>,
    pub url: Seq<char>,
}

/// The mathematical value of `Command`.
pub enum CommandView {
    Generate(GenerateSettings),
    Fetch(FetchSettings),
    Help(HelpTopic),
}

/// The mathematical value of `CliError`.
pub enum CliErrorView {
    InvalidOutputFormat(Seq<char>),
    UnrecognizedOption(Seq<char>),
    InvalidAsset(Seq<char>),
    MissingValue(Seq<char>),
    UnexpectedFetchArgument(Seq<char>),
    SdnNotFound(Seq<char>),
    FeatureTypeNotFound(Seq<char>),
    NoXmlInArchive,
    Xml(Seq<char>),
    Zip(Seq<char>),
}

impl View for GenerateArgs {
    type V = GenerateSettings;

    open spec fn view(&self) -> GenerateSettings {
        GenerateSettings {
            assets: self.assets@,
            sdn: self.sdn@,
            output_formats: self.output_formats@,
            outpath: self.outpath@,
        }
    }
}

impl View for FetchArgs {
    type V = FetchSettings;

    open spec fn view(&self) -> FetchSettings {
        FetchSettings { output: self.output@, url: self.url@ }
    }
}

impl View for Command {
    type V = CommandView;

    open spec fn view(&self) -> CommandView {
        match self {
            Command::Generate(a) => CommandView::Generate(a@),
            Command::Fetch(a) => CommandView::Fetch(a@),
            Command::Help(t) => CommandView::Help(*t),
        }
    }
}

impl View for CliError {
    type V = CliErrorView;

    open spec fn view(&self) -> CliErrorView {
        match self {
            CliError::InvalidOutputFormat(s) => CliErrorView::InvalidOutputFormat(s@),
            CliError::UnrecognizedOption(s) => CliErrorView::UnrecognizedOption(s@),
            CliError::InvalidAsset(s) => CliErrorView::InvalidAsset(s@),
            CliError::MissingValue(s) => CliErrorView::MissingValue(s@),
            CliError::UnexpectedFetchArgument(s) => CliErrorView::UnexpectedFetchArgument(s@),
            CliError::SdnNotFound(s) => CliErrorView::SdnNotFound(s@),
            CliError::FeatureTypeNotFound(s) => CliErrorView::FeatureTypeNotFound(s@),
            CliError::NoXmlInArchive => CliErrorView::NoXmlInArchive,
            CliError::Xml(s) => CliErrorView::Xml(s@),
            CliError::Zip(s) => CliErrorView::Zip(s@),
        }
    }
}

impl CliErrorView {
    /// The message that reports the error.
    pub open spec fn message(self) -> Seq<char> {
        match self {
            CliErrorView::InvalidOutputFormat(s) => "invalid output format: "@ + s,
            CliErrorView::UnrecognizedOption(s) => "unrecognized option: "@ + s,
            CliErrorView::InvalidAsset(s) => "invalid asset: "@ + s,
            CliErrorView::MissingValue(s) => s + " requires a value"@,
            CliErrorView::UnexpectedFetchArgument(s) => "unexpected argument for fetch: "@ + s,
            CliErrorView::SdnNotFound(s) => s
                + " does not exist. Run `generate-address-list fetch` first or pass `-sdn /path/to/sdn_advanced.xml`."@,
            CliErrorView::FeatureTypeNotFound(s) => "No FeatureType with the name "@ + s
                + " found"@,
            CliErrorView::NoXmlInArchive => "No XML file found in the downloaded archive"@,
            CliErrorView::Xml(s) => s,
            CliErrorView::Zip(s) => s,
        }
    }
}

impl CliError {
    /// The message that reports the error.
    pub fn message(&self) -> (r: String)
        ensures
            r@ == self@.message(),
    {
        match self {
            CliError::InvalidOutputFormat(s) => concat("invalid output format: ", s.as_str()),
            CliError::UnrecognizedOption(s) => concat("unrecognized option: ", s.as_str()),
            CliError::InvalidAsset(s) => concat("invalid asset: ", s.as_str()),
            CliError::MissingValue(s) => concat(s.as_str(), " requires a value"),
            CliError::UnexpectedFetchArgument(s) => concat(
                "unexpected argument for fetch: ",
                s.as_str(),
            ),
            CliError::SdnNotFound(s) => concat(
                s.as_str(),
                " does not exist. Run `generate-address-list fetch` first or pass `-sdn /path/to/sdn_advanced.xml`.",
            ),
            CliError::FeatureTypeNotFound(s) => {
                let m = concat("No FeatureType with the name ", s.as_str());
                concat(m.as_str(), " found")
            },
            CliError::NoXmlInArchive => "No XML file found in the downloaded archive".to_owned(),
            CliError::Xml(s) => s.clone(),
            CliError::Zip(s) => s.clone(),
        }
    }
}

/// Whether a command-line word starts with '-'.
pub open spec fn is_option(s: Seq<char>) -> bool {
    s.len() > 0 && s[0] == '-'
}

fn starts_with_dash(s: &str) -> (r: bool)
    ensures
        r == is_option(s@),
{
    s.unicode_len() > 0 && s.get_char(0) == '-'
}

/// The settings of generation before any argument is read.
pub open spec fn generate_defaults() -> GenerateSettings {
    GenerateSettings {
        assets: seq![],
        sdn: DEFAULT_SDN_FILENAME@,
        output_formats: seq![],
        outpath: "."@,
    }
}

/// The settings of the download before any argument is read.
pub open spec fn fetch_defaults() -> FetchSettings {
    FetchSettings { output: DEFAULT_SDN_FILENAME@, url: DEFAULT_SDN_URL@ }
}

/// Generation settings once all arguments are read: XBT when no asset was
/// named, TXT when no format was.
pub open spec fn completed(s: GenerateSettings) -> GenerateSettings {
    GenerateSettings {
        assets: if s.assets.len() == 0 {
            seq![Asset::Xbt]
        } else {
            s.assets
        },
        sdn: s.sdn,
        output_formats: if s.output_formats.len() == 0 {
            seq![OutputFormat::Txt]
        } else {
            s.output_formats
        },
        outpath: s.outpath,
    }
}

/// What the generation arguments from position `i` on make of the settings
/// `s`; `reading_formats` holds right after `-f`, while the words that follow
/// it are format names.
pub open spec fn generate_from(
    args: Seq<Seq<char>>,
    i: int,
    s: GenerateSettings,
    reading_formats: bool,
) -> Result<CommandView, CliErrorView>
    decreases args.len() - i,
{
    if i >= args.len() {
        Ok(CommandView::Generate(completed(s)))
    } else if reading_formats && !is_option(args[i]) {
        match OutputFormat::spec_named(args[i]) {
            Some(f) => generate_from(
                args,
                i + 1,
                GenerateSettings {
                    assets: s.assets,
                    sdn: s.sdn,
                    output_formats: s.output_formats.push(f),
                    outpath: s.outpath,
                },
                true,
            ),
            None => Err(CliErrorView::InvalidOutputFormat(args[i])),
        }
    } else {
        let a = args[i];
        if a == "-h"@ || a == "--help"@ {
            Ok(CommandView::Help(HelpTopic::Generate))
        } else if a == "-sdn"@ || a == "--special-designated-nationals-list"@ {
            if i + 1 < args.len() {
                generate_from(
                    args,
                    i + 2,
                    GenerateSettings {
                        assets: s.assets,
                        sdn: args[i + 1],
                        output_formats: s.output_formats,
                        outpath: s.outpath,
                    },
                    false,
                )
            } else {
                Err(CliErrorView::MissingValue("-sdn"@))
            }
        } else if a == "-f"@ || a == "--output-format"@ {
            generate_from(args, i + 1, s, true)
        } else if a == "-path"@ || a == "--output-path"@ {
            if i + 1 < args.len() {
                generate_from(
                    args,
                    i + 2,
                    GenerateSettings {
                        assets: s.assets,
                        sdn: s.sdn,
                        output_formats: s.output_formats,
                        outpath: args[i + 1],
                    },
                    false,
                )
            } else {
                Err(CliErrorView::MissingValue("-path"@))
            }
        } else if is_option(a) {
            Err(CliErrorView::UnrecognizedOption(a))
        } else {
            match Asset::spec_named(a) {
                Some(x) => generate_from(
                    args,
                    i + 1,
                    GenerateSettings {
                        assets: s.assets.push(x),
                        sdn: s.sdn,
                        output_formats: s.output_formats,
                        outpath: s.outpath,
                    },
                    false,
                ),
                None => Err(CliErrorView::InvalidAsset(a)),
            }
        }
    }
}

/// What the download arguments from position `i` on make of the settings `s`.
pub open spec fn fetch_from(args: Seq<Seq<char>>, i: int, s: FetchSettings) -> Result<
    CommandView,
    CliErrorView,
>
    decreases args.len() - i,
{
    if i >= args.len() {
        Ok(CommandView::Fetch(s))
    } else {
        let a = args[i];
        if a == "-h"@ || a == "--help"@ {
            Ok(CommandView::Help(HelpTopic::Fetch))
        } else if a == "-o"@ || a == "--output"@ {
            if i + 1 < args.len() {
                fetch_from(args, i + 2, FetchSettings { output: args[i + 1], url: s.url })
            } else {
                Err(CliErrorView::MissingValue("-o"@))
            }
        } else if a == "--url"@ {
            if i + 1 < args.len() {
                fetch_from(args, i + 2, FetchSettings { output: s.output, url: args[i + 1] })
            } else {
                Err(CliErrorView::MissingValue("--url"@))
            }
        } else if is_option(a) {
            Err(CliErrorView::UnrecognizedOption(a))
        } else {
            Err(CliErrorView::UnexpectedFetchArgument(a))
        }
    }
}

/// What a command line (without the program name) asks for: the download
/// when its first word is `fetch`, generation otherwise.
pub open spec fn command_line(args: Seq<Seq<char>>) -> Result<CommandView, CliErrorView> {
    if args.len() > 0 && args[0] == "fetch"@ {
        fetch_from(args, 1, fetch_defaults())
    } else {
        generate_from(args, 0, generate_defaults(), false)
    }
}

/// The mathematical value of a parse result.
pub open spec fn outcome(r: Result<Command, CliError>) -> Result<CommandView, CliErrorView> {
    match r {
        Ok(c) => Ok(c@),
        Err(e) => Err(e@),
    }
}

/// Reads the command line, without the program name.
pub fn parse_args(args: Vec<String>) -> (r: Result<Command, CliError>)
    ensures
        outcome(r) == command_line(texts(args@)),
{
    if args.len() > 0 && same_text(args[0].as_str(), "fetch") {
        parse_fetch_args(&args, 1)
    } else {
        parse_generate_args(&args, 0)
    }
}

fn parse_generate_args(args: &Vec<String>, start: usize) -> (r: Result<Command, CliError>)
    requires
        start <= args.len(),
    ensures
        outcome(r) == generate_from(texts(args@), start as int, generate_defaults(), false),
{
    let ghost words = texts(args@);
    let n = args.len();
    let mut assets: Vec<Asset> = Vec::new();
    let mut formats: Vec<OutputFormat> = Vec::new();
    let mut sdn: String = DEFAULT_SDN_FILENAME.to_owned();
    let mut outpath: String = ".".to_owned();
    let mut i: usize = start;
    assert(GenerateSettings {
        assets: assets@,
        sdn: sdn@,
        output_formats: formats@,
        outpath: outpath@,
    } == generate_defaults());
    while i < n
        invariant
            start <= i <= n,
            n == args@.len(),
            words == texts(args@),
            generate_from(words, start as int, generate_defaults(), false) == generate_from(
                words,
                i as int,
                GenerateSettings {
                    assets: assets@,
                    sdn: sdn@,
                    output_formats: formats@,
                    outpath: outpath@,
                },
                false,
            ),
        decreases n - i,
    {
        let a = args[i].as_str();
        assert(a@ == words[i as int]);
        if same_text(a, "-h") || same_text(a, "--help") {
            return Ok(Command::Help(HelpTopic::Generate));
        } else if same_text(a, "-sdn") || same_text(a, "--special-designated-nationals-list") {
            if i + 1 < n {
                sdn = args[i + 1].clone();
                i = i + 2;
            } else {
                return Err(CliError::MissingValue("-sdn".to_owned()));
            }
        } else if same_text(a, "-f") || same_text(a, "--output-format") {
            i = i + 1;
            let ghost first = i;
            while i < n && !starts_with_dash(args[i].as_str())
                invariant
                    start < first <= i <= n,
                    n == args@.len(),
                    words == texts(args@),
                    generate_from(words, start as int, generate_defaults(), false)
                        == generate_from(
                        words,
                        i as int,
                        GenerateSettings {
                            assets: assets@,
                            sdn: sdn@,
                            output_formats: formats@,
                            outpath: outpath@,
                        },
                        true,
                    ),
                decreases n - i,
            {
                match OutputFormat::from_text(args[i].as_str()) {
                    Some(f) => {
                        formats.push(f);
                    },
                    None => {
                        return Err(CliError::InvalidOutputFormat(args[i].clone()));
                    },
                }
                i = i + 1;
            }
            assert(generate_from(
                words,
                i as int,
                GenerateSettings {
                    assets: assets@,
                    sdn: sdn@,
                    output_formats: formats@,
                    outpath: outpath@,
                },
                true,
            ) == generate_from(
                words,
                i as int,
                GenerateSettings {
                    assets: assets@,
                    sdn: sdn@,
                    output_formats: formats@,
                    outpath: outpath@,
                },
                false,
            ));
        } else if same_text(a, "-path") || same_text(a, "--output-path") {
            if i + 1 < n {
                outpath = args[i + 1].clone();
                i = i + 2;
            } else {
                return Err(CliError::MissingValue("-path".to_owned()));
            }
        } else if starts_with_dash(a) {
            return Err(CliError::UnrecognizedOption(args[i].clone()));
        } else {
            match Asset::from_text(a) {
                Some(x) => {
                    assets.push(x);
                    i = i + 1;
                },
                None => {
                    return Err(CliError::InvalidAsset(args[i].clone()));
                },
            }
        }
    }
    let ghost gathered = GenerateSettings {
        assets: assets@,
        sdn: sdn@,
        output_formats: formats@,
        outpath: outpath@,
    };
    if assets.len() == 0 {
        assets.push(Asset::Xbt);
        assert(assets@ =~= seq![Asset::Xbt]);
    }
    if formats.len() == 0 {
        formats.push(OutputFormat::Txt);
        assert(formats@ =~= seq![OutputFormat::Txt]);
    }
    assert(GenerateSettings {
        assets: assets@,
        sdn: sdn@,
        output_formats: formats@,
        outpath: outpath@,
    } == completed(gathered));
    Ok(Command::Generate(GenerateArgs { assets, sdn, output_formats: formats, outpath }))
}

fn parse_fetch_args(args: &Vec<String>, start: usize) -> (r: Result<Command, CliError>)
    requires
        start <= args.len(),
    ensures
        outcome(r) == fetch_from(texts(args@), start as int, fetch_defaults()),
{
    let ghost words = texts(args@);
    let n = args.len();
    let mut output: String = DEFAULT_SDN_FILENAME.to_owned();
    let mut url: String = DEFAULT_SDN_URL.to_owned();
    let mut i: usize = start;
    while i < n
        invariant
            start <= i <= n,
            n == args@.len(),
            words == texts(args@),
            fetch_from(words, start as int, fetch_defaults()) == fetch_from(
                words,
                i as int,
                FetchSettings { output: output@, url: url@ },
            ),
        decreases n - i,
    {
        let a = args[i].as_str();
        assert(a@ == words[i as int]);
        if same_text(a, "-h") || same_text(a, "--help") {
            return Ok(Command::Help(HelpTopic::Fetch));
        } else if same_text(a, "-o") || same_text(a, "--output") {
            if i + 1 < n {
                output = args[i + 1].clone();
                i = i + 2;
            } else {
                return Err(CliError::MissingValue("-o".to_owned()));
            }
        } else if same_text(a, "--url") {
            if i + 1 < n {
                url = args[i + 1].clone();
                i = i + 2;
            } else {
                return Err(CliError::MissingValue("--url".to_owned()));
            }
        } else if starts_with_dash(a) {
            return Err(CliError::UnrecognizedOption(args[i].clone()));
        } else {
            return Err(CliError::UnexpectedFetchArgument(args[i].clone()));
        }
    }
    Ok(Command::Fetch(FetchArgs { output, url }))
}

/// The ticker symbols of all assets, in declaration order.
pub open spec fn asset_names() -> Seq<Seq<char>> {
    Asset::spec_all().map_values(|a: Asset| a.spec_text())
}

/// The names of all formats, in declaration order.
pub open spec fn format_names() -> Seq<Seq<char>> {
    OutputFormat::spec_all().map_values(|f: OutputFormat| f.spec_text())
}

/// The usage text of a command.
pub open spec fn help_message(topic: HelpTopic) -> Seq<char> {
    match topic {
        HelpTopic::Generate => "Usage: generate-address-list [ASSET ...] [-sdn FILE] [-f TXT JSON] [-path DIR]\n\nGenerate sanctioned digital currency address lists from an OFAC XML file.\n\nAssets: "@
            + join_with(asset_names(), " "@) + "\nFormats: "@ + join_with(format_names(), " "@)
            + "\n\nFetch the input XML first with: generate-address-list fetch -o sdn_advanced.xml"@,
        HelpTopic::Fetch => "Usage: generate-address-list fetch [-o FILE] [--url URL]\n\nDownload the published OFAC SDN XML archive and extract the XML file."@,
    }
}

fn asset_name_list() -> (r: Vec<&'static str>)
    ensures
        r@.map_values(|w: &str| w@) == asset_names(),
{
    let all = Asset::all();
    let mut out: Vec<&'static str> = Vec::new();
    let mut i: usize = 0;
    while i < all.len()
        invariant
            i <= all@.len(),
            all@ == Asset::spec_all(),
            out@.len() == i,
            forall|k: int| 0 <= k < i ==> (#[trigger] out@[k])@ == all@[k].spec_text(),
        decreases all@.len() - i,
    {
        out.push(all[i].as_str());
        i = i + 1;
    }
    assert(out@.map_values(|w: &str| w@) =~= asset_names());
    out
}

fn format_name_list() -> (r: Vec<&'static str>)
    ensures
        r@.map_values(|w: &str| w@) == format_names(),
{
    let all = OutputFormat::all();
    let mut out: Vec<&'static str> = Vec::new();
    let mut i: usize = 0;
    while i < all.len()
        invariant
            i <= all@.len(),
            all@ == OutputFormat::spec_all(),
            out@.len() == i,
            forall|k: int| 0 <= k < i ==> (#[trigger] out@[k])@ == all@[k].spec_text(),
        decreases all@.len() - i,
    {
        out.push(all[i].as_str());
        i = i + 1;
    }
    assert(out@.map_values(|w: &str| w@) =~= format_names());
    out
}

/// The usage text of a command, as `-h` prints it.
pub fn help_text(topic: HelpTopic) -> (r: String)
    ensures
        r@ == help_message(topic),
{
    match topic {
        HelpTopic::Generate => {
            let assets = join_texts(&asset_name_list(), " ");
            let formats = join_texts(&format_name_list(), " ");
            let s = concat(
                "Usage: generate-address-list [ASSET ...] [-sdn FILE] [-f TXT JSON] [-path DIR]\n\nGenerate sanctioned digital currency address lists from an OFAC XML file.\n\nAssets: ",
                assets.as_str(),
            );
            let s = concat(s.as_str(), "\nFormats: ");
            let s = concat(s.as_str(), formats.as_str());
            concat(
                s.as_str(),
                "\n\nFetch the input XML first with: generate-address-list fetch -o sdn_advanced.xml",
            )
        },
        HelpTopic::Fetch => "Usage: generate-address-list fetch [-o FILE] [--url URL]\n\nDownload the published OFAC SDN XML archive and extract the XML file.".to_owned(),
    }
}

proof fn lemma_generate_from_complete(
    args: Seq<Seq<char>>,
    i: int,
    s: GenerateSettings,
    reading_formats: bool,
)
    ensures
        generate_from(args, i, s, reading_formats) matches Ok(CommandView::Generate(t)) ==> t.assets.len()
            > 0 && t.output_formats.len() > 0,
    decreases args.len() - i,
{
    if i < args.len() {
        let a = args[i];
        lemma_generate_from_complete(args, i + 1, s, true);
        if reading_formats && !is_option(a) {
            if let Some(f) = OutputFormat::spec_named(a) {
                lemma_generate_from_complete(args, i + 1, GenerateSettings {
                    assets: s.assets,
                    sdn: s.sdn,
                    output_formats: s.output_formats.push(f),
                    outpath: s.outpath,
                }, true);
            }
        } else if i + 1 < args.len() {
            lemma_generate_from_complete(args, i + 2, GenerateSettings {
                assets: s.assets,
                sdn: args[i + 1],
                output_formats: s.output_formats,
                outpath: s.outpath,
            }, false);
            lemma_generate_from_complete(args, i + 2, GenerateSettings {
                assets: s.assets,
                sdn: s.sdn,
                output_formats: s.output_formats,
                outpath: args[i + 1],
            }, false);
        }
        if !(reading_formats && !is_option(a)) {
            if let Some(x) = Asset::spec_named(a) {
                lemma_generate_from_complete(args, i + 1, GenerateSettings {
                    assets: s.assets.push(x),
                    sdn: s.sdn,
                    output_formats: s.output_formats,
                    outpath: s.outpath,
                }, false);
            }
        }
    }
}

proof fn lemma_fetch_from_fetches(args: Seq<Seq<char>>, i: int, s: FetchSettings)
    ensures
        !(fetch_from(args, i, s) matches Ok(CommandView::Generate(_))),
    decreases args.len() - i,
{
    if i + 1 < args.len() {
        lemma_fetch_from_fetches(args, i + 2, FetchSettings { output: args[i + 1], url: s.url });
        lemma_fetch_from_fetches(args, i + 2, FetchSettings { output: s.output, url: args[i + 1] });
    }
}

/// A command line that asks for generation always names at least one asset
/// and one format: XBT and TXT stand in for what it leaves out.
pub proof fn generation_names_an_asset_and_a_format(args: Seq<Seq<char>>)
    ensures
        command_line(args) matches Ok(CommandView::Generate(s)) ==> s.assets.len() > 0
            && s.output_formats.len() > 0,
{
    lemma_generate_from_complete(args, 0, generate_defaults(), false);
    lemma_fetch_from_fetches(args, 1, fetch_defaults());
}

} // verus!

verus! {

/// The long spelling of a generation option word; other words as they are.
pub open spec fn generate_long_form(w: Seq<char>) -> Seq<char> {
    if w == "-sdn"@ {
        "--special-designated-nationals-list"@
    } else if w == "-f"@ {
        "--output-format"@
    } else if w == "-path"@ {
        "--output-path"@
    } else if w == "-h"@ {
        "--help"@
    } else {
        w
    }
}

/// Whether a word is the option that sets the SDN file or the output
/// directory, in either spelling.
pub open spec fn takes_value(w: Seq<char>) -> bool {
    w == "-sdn"@ || w == "--special-designated-nationals-list"@ || w == "-path"@ || w
        == "--output-path"@
}

/// `args` with every word from position `i` on that generation reads as an
/// option spelled long. The words read as values (the one after `-sdn` or
/// `-path`) and the words read as format names are left as they are;
/// `reading_formats` holds right after `-f`.
pub open spec fn generate_long_spelling(args: Seq<Seq<char>>, i: int, reading_formats: bool) -> Seq<
    Seq<char>,
>
    decreases args.len() - i,
{
    if i < 0 || i >= args.len() {
        args
    } else if reading_formats && !is_option(args[i]) {
        generate_long_spelling(args, i + 1, true)
    } else if takes_value(args[i]) && i + 1 < args.len() {
        generate_long_spelling(args.update(i, generate_long_form(args[i])), i + 2, false)
    } else if args[i] == "-f"@ || args[i] == "--output-format"@ {
        generate_long_spelling(args.update(i, generate_long_form(args[i])), i + 1, true)
    } else {
        generate_long_spelling(args.update(i, generate_long_form(args[i])), i + 1, false)
    }
}

/// The long spelling of a download option word; other words as they are.
pub open spec fn fetch_long_form(w: Seq<char>) -> Seq<char> {
    if w == "-o"@ {
        "--output"@
    } else if w == "-h"@ {
        "--help"@
    } else {
        w
    }
}

/// `args` with every word from position `i` on that the download reads as
/// an option spelled long; the word after `-o` or `--url` is a value and is
/// left as it is.
pub open spec fn fetch_long_spelling(args: Seq<Seq<char>>, i: int) -> Seq<Seq<char>>
    decreases args.len() - i,
{
    if i < 0 || i >= args.len() {
        args
    } else if (args[i] == "-o"@ || args[i] == "--output"@ || args[i] == "--url"@) && i + 1
        < args.len() {
        fetch_long_spelling(args.update(i, fetch_long_form(args[i])), i + 2)
    } else {
        fetch_long_spelling(args.update(i, fetch_long_form(args[i])), i + 1)
    }
}

proof fn lemma_option_words()
    ensures
        is_option("-h"@),
        is_option("--help"@),
        is_option("-sdn"@),
        is_option("--special-designated-nationals-list"@),
        is_option("-f"@),
        is_option("--output-format"@),
        is_option("-path"@),
        is_option("--output-path"@),
        is_option("-o"@),
        is_option("--output"@),
        is_option("--url"@),
        "-h"@ != "-f"@,
        "-h"@ != "-o"@,
        "-h"@ != "--help"@,
        "-h"@ != "-sdn"@,
        "-h"@ != "-path"@,
        "-h"@ != "--url"@,
        "--help"@ != "-sdn"@,
        "--help"@ != "--special-designated-nationals-list"@,
        "--help"@ != "-f"@,
        "--help"@ != "--output-format"@,
        "--help"@ != "-path"@,
        "--help"@ != "--output-path"@,
        "--help"@ != "-o"@,
        "--help"@ != "--output"@,
        "--help"@ != "--url"@,
        "-h"@ != "--special-designated-nationals-list"@,
        "-h"@ != "--output-format"@,
        "-h"@ != "--output-path"@,
        "-h"@ != "--output"@,
        "-sdn"@ != "--output-format"@,
        "-sdn"@ != "-f"@,
        "-sdn"@ != "-path"@,
        "-sdn"@ != "--output-path"@,
        "--special-designated-nationals-list"@ != "-f"@,
        "--special-designated-nationals-list"@ != "--output-format"@,
        "--special-designated-nationals-list"@ != "-path"@,
        "--special-designated-nationals-list"@ != "--output-path"@,
        "-f"@ != "-path"@,
        "-f"@ != "--output-path"@,
        "--output-format"@ != "-path"@,
        "--output-format"@ != "--output-path"@,
        "-o"@ != "--url"@,
        "--output"@ != "--url"@,
        "-o"@ != "--output"@,
{
    reveal_strlit("-h");
    reveal_strlit("--help");
    reveal_strlit("-sdn");
    reveal_strlit("--special-designated-nationals-list");
    reveal_strlit("-f");
    reveal_strlit("--output-format");
    reveal_strlit("-path");
    reveal_strlit("--output-path");
    reveal_strlit("-o");
    reveal_strlit("--output");
    reveal_strlit("--url");
    assert("-h"@[1] != "-f"@[1]);
    assert("-h"@[1] != "-o"@[1]);
}

proof fn lemma_generate_from_reads_from(
    a: Seq<Seq<char>>,
    b: Seq<Seq<char>>,
    i: int,
    s: GenerateSettings,
    reading_formats: bool,
)
    requires
        a.len() == b.len(),
        forall|k: int| i <= k < a.len() ==> a[k] == b[k],
    ensures
        generate_from(a, i, s, reading_formats) == generate_from(b, i, s, reading_formats),
    decreases a.len() - i,
{
    if i < a.len() {
        let x = a[i];
        lemma_generate_from_reads_from(a, b, i + 1, s, true);
        lemma_generate_from_reads_from(a, b, i + 1, s, false);
        if let Some(f) = OutputFormat::spec_named(x) {
            lemma_generate_from_reads_from(a, b, i + 1, GenerateSettings {
                assets: s.assets,
                sdn: s.sdn,
                output_formats: s.output_formats.push(f),
                outpath: s.outpath,
            }, true);
        }
        if let Some(y) = Asset::spec_named(x) {
            lemma_generate_from_reads_from(a, b, i + 1, GenerateSettings {
                assets: s.assets.push(y),
                sdn: s.sdn,
                output_formats: s.output_formats,
                outpath: s.outpath,
            }, false);
        }
        if i + 1 < a.len() {
            lemma_generate_from_reads_from(a, b, i + 2, GenerateSettings {
                assets: s.assets,
                sdn: a[i + 1],
                output_formats: s.output_formats,
                outpath: s.outpath,
            }, false);
            lemma_generate_from_reads_from(a, b, i + 2, GenerateSettings {
                assets: s.assets,
                sdn: s.sdn,
                output_formats: s.output_formats,
                outpath: a[i + 1],
            }, false);
        }
    }
}

proof fn lemma_generate_long_spelling_shape(args: Seq<Seq<char>>, i: int, reading_formats: bool)
    ensures
        generate_long_spelling(args, i, reading_formats).len() == args.len(),
        forall|k: int|
            0 <= k < i && k < args.len() ==> #[trigger] generate_long_spelling(
                args,
                i,
                reading_formats,
            )[k] == args[k],
        0 <= i < args.len() ==> generate_long_spelling(args, i, reading_formats)[i] == if reading_formats
            && !is_option(args[i]) {
            args[i]
        } else {
            generate_long_form(args[i])
        },
        0 <= i && i + 1 < args.len() && !(reading_formats && !is_option(args[i])) && takes_value(args[i])
            ==> generate_long_spelling(args, i, reading_formats)[i + 1] == args[i + 1],
    decreases args.len() - i,
{
    if 0 <= i < args.len() {
        let u = args.update(i, generate_long_form(args[i]));
        if reading_formats && !is_option(args[i]) {
            lemma_generate_long_spelling_shape(args, i + 1, true);
        } else if takes_value(args[i]) && i + 1 < args.len() {
            lemma_generate_long_spelling_shape(u, i + 2, false);
            assert(generate_long_spelling(args, i, reading_formats) == generate_long_spelling(u, i + 2, false));
        } else if args[i] == "-f"@ || args[i] == "--output-format"@ {
            lemma_generate_long_spelling_shape(u, i + 1, true);
            assert(generate_long_spelling(args, i, reading_formats) == generate_long_spelling(u, i + 1, true));
        } else {
            lemma_generate_long_spelling_shape(u, i + 1, false);
            assert(generate_long_spelling(args, i, reading_formats) == generate_long_spelling(u, i + 1, false));
        }
    }
}

proof fn lemma_generate_long_spelling_same(
    args: Seq<Seq<char>>,
    i: int,
    s: GenerateSettings,
    reading_formats: bool,
)
    requires
        0 <= i,
    ensures
        generate_from(generate_long_spelling(args, i, reading_formats), i, s, reading_formats)
            == generate_from(args, i, s, reading_formats),
    decreases args.len() - i,
{
    lemma_option_words();
    if i < args.len() {
        let r = generate_long_spelling(args, i, reading_formats);
        let w = args[i];
        let u = args.update(i, generate_long_form(w));
        lemma_generate_long_spelling_shape(args, i, reading_formats);
        if reading_formats && !is_option(w) {
            assert(r == generate_long_spelling(args, i + 1, true));
            assert(r[i] == w);
            match OutputFormat::spec_named(w) {
                Some(f) => {
                    let more = GenerateSettings {
                        assets: s.assets,
                        sdn: s.sdn,
                        output_formats: s.output_formats.push(f),
                        outpath: s.outpath,
                    };
                    lemma_generate_long_spelling_same(args, i + 1, more, true);
                    assert(generate_from(r, i, s, reading_formats) == generate_from(r, i + 1, more, true));
                },
                None => {},
            }
        } else if takes_value(w) && i + 1 < args.len() {
            assert(r == generate_long_spelling(u, i + 2, false));
            let sdn_set = GenerateSettings {
                assets: s.assets,
                sdn: args[i + 1],
                output_formats: s.output_formats,
                outpath: s.outpath,
            };
            let path_set = GenerateSettings {
                assets: s.assets,
                sdn: s.sdn,
                output_formats: s.output_formats,
                outpath: args[i + 1],
            };
            if w == "-sdn"@ || w == "--special-designated-nationals-list"@ {
                assert(r[i] == "--special-designated-nationals-list"@);
                lemma_generate_long_spelling_same(u, i + 2, sdn_set, false);
                lemma_generate_from_reads_from(u, args, i + 2, sdn_set, false);
                assert(generate_from(r, i, s, reading_formats) == generate_from(r, i + 2, sdn_set, false));
                assert(generate_from(args, i, s, reading_formats) == generate_from(args, i + 2, sdn_set, false));
            } else {
                assert(r[i] == "--output-path"@);
                lemma_generate_long_spelling_same(u, i + 2, path_set, false);
                lemma_generate_from_reads_from(u, args, i + 2, path_set, false);
                assert(generate_from(r, i, s, reading_formats) == generate_from(r, i + 2, path_set, false));
                assert(generate_from(args, i, s, reading_formats) == generate_from(args, i + 2, path_set, false));
            }
        } else if w == "-f"@ || w == "--output-format"@ {
            assert(r == generate_long_spelling(u, i + 1, true));
            assert(r[i] == "--output-format"@);
            lemma_generate_long_spelling_same(u, i + 1, s, true);
            lemma_generate_from_reads_from(u, args, i + 1, s, true);
            assert(generate_from(r, i, s, reading_formats) == generate_from(r, i + 1, s, true));
            assert(generate_from(args, i, s, reading_formats) == generate_from(args, i + 1, s, true));
        } else {
            assert(r == generate_long_spelling(u, i + 1, false));
            if w == "-h"@ || w == "--help"@ {
                assert(r[i] == "--help"@);
            } else if takes_value(w) {
                assert(r[i] == generate_long_form(w));
                assert(i + 1 >= args.len());
            } else {
                assert(generate_long_form(w) == w);
                assert(r[i] == w);
                match Asset::spec_named(w) {
                    Some(x) => {
                        let more = GenerateSettings {
                            assets: s.assets.push(x),
                            sdn: s.sdn,
                            output_formats: s.output_formats,
                            outpath: s.outpath,
                        };
                        lemma_generate_long_spelling_same(u, i + 1, more, false);
                        lemma_generate_from_reads_from(u, args, i + 1, more, false);
                        if !is_option(w) {
                            assert(generate_from(r, i, s, reading_formats) == generate_from(r, i + 1, more, false));
                            assert(generate_from(args, i, s, reading_formats) == generate_from(args, i + 1, more, false));
                        }
                    },
                    None => {},
                }
            }
        }
    }
}

proof fn lemma_fetch_from_reads_from(a: Seq<Seq<char>>, b: Seq<Seq<char>>, i: int, s: FetchSettings)
    requires
        a.len() == b.len(),
        forall|k: int| i <= k < a.len() ==> a[k] == b[k],
    ensures
        fetch_from(a, i, s) == fetch_from(b, i, s),
    decreases a.len() - i,
{
    if i + 1 < a.len() {
        lemma_fetch_from_reads_from(a, b, i + 2, FetchSettings { output: a[i + 1], url: s.url });
        lemma_fetch_from_reads_from(a, b, i + 2, FetchSettings { output: s.output, url: a[i + 1] });
    }
}

proof fn lemma_fetch_long_spelling_shape(args: Seq<Seq<char>>, i: int)
    ensures
        fetch_long_spelling(args, i).len() == args.len(),
        forall|k: int|
            0 <= k < i && k < args.len() ==> #[trigger] fetch_long_spelling(args, i)[k] == args[k],
    decreases args.len() - i,
{
    if 0 <= i < args.len() {
        let u = args.update(i, fetch_long_form(args[i]));
        if (args[i] == "-o"@ || args[i] == "--output"@ || args[i] == "--url"@) && i + 1 < args.len() {
            lemma_fetch_long_spelling_shape(u, i + 2);
        } else {
            lemma_fetch_long_spelling_shape(u, i + 1);
        }
    }
}

proof fn lemma_fetch_long_spelling_same(args: Seq<Seq<char>>, i: int, s: FetchSettings)
    requires
        0 <= i,
    ensures
        fetch_from(fetch_long_spelling(args, i), i, s) == fetch_from(args, i, s),
    decreases args.len() - i,
{
    lemma_option_words();
    if i < args.len() {
        let r = fetch_long_spelling(args, i);
        let w = args[i];
        let u = args.update(i, fetch_long_form(w));
        if (w == "-o"@ || w == "--output"@ || w == "--url"@) && i + 1 < args.len() {
            lemma_fetch_long_spelling_shape(u, i + 2);
            assert(r[i] == fetch_long_form(w));
            assert(r[i + 1] == args[i + 1]);
            let out_set = FetchSettings { output: args[i + 1], url: s.url };
            let url_set = FetchSettings { output: s.output, url: args[i + 1] };
            lemma_fetch_long_spelling_same(u, i + 2, out_set);
            lemma_fetch_long_spelling_same(u, i + 2, url_set);
            lemma_fetch_from_reads_from(u, args, i + 2, out_set);
            lemma_fetch_from_reads_from(u, args, i + 2, url_set);
        } else {
            lemma_fetch_long_spelling_shape(u, i + 1);
            assert(r[i] == fetch_long_form(w));
        }
    }
}

/// Each option may be written in its long or its short form: spelling out
/// long every word of a command line that is read as an option (`-sdn`, `-f`,
/// `-path` and `-h` for generation, `-o` and `-h` for the download) gives
/// the same command, the same error or the same request for help.
pub proof fn long_and_short_options_agree(args: Seq<Seq<char>>)
    ensures
        !(args.len() > 0 && args[0] == "fetch"@) ==> command_line(
            generate_long_spelling(args, 0, false),
        ) == command_line(args),
        args.len() > 0 && args[0] == "fetch"@ ==> command_line(fetch_long_spelling(args, 1))
            == command_line(args),
{
    lemma_option_words();
    reveal_strlit("fetch");
    if args.len() > 0 && args[0] == "fetch"@ {
        lemma_fetch_long_spelling_shape(args, 1);
        lemma_fetch_long_spelling_same(args, 1, fetch_defaults());
        assert(fetch_long_spelling(args, 1)[0] == args[0]);
    } else {
        lemma_generate_long_spelling_shape(args, 0, false);
        lemma_generate_long_spelling_same(args, 0, generate_defaults(), false);
        let r = generate_long_spelling(args, 0, false);
        if args.len() > 0 {
            assert(r[0] == generate_long_form(args[0]));
            if r[0] == "fetch"@ {
                assert(r[0][0] == 'f');
            }
        }
    }
}

} // verus!

verus! {

proof fn lemma_asset_word(a: Asset)
    ensures
        !is_option(a.spec_text()),
        a.spec_text().len() < 5,
        Asset::spec_named(a.spec_text()) == Some(a),
{
    reveal_strlit("XBT");
    reveal_strlit("ETH");
    reveal_strlit("XMR");
    reveal_strlit("LTC");
    reveal_strlit("ZEC");
    reveal_strlit("DASH");
    reveal_strlit("BTG");
    reveal_strlit("ETC");
    reveal_strlit("BSV");
    reveal_strlit("BCH");
    reveal_strlit("XVG");
    reveal_strlit("USDT");
    reveal_strlit("XRP");
    reveal_strlit("ARB");
    reveal_strlit("BSC");
    reveal_strlit("USDC");
    reveal_strlit("TRX");
    reveal_strlit("SOL");
    match a {
        Asset::Xbt => {},
        Asset::Eth => {},
        Asset::Xmr => {},
        Asset::Ltc => {},
        Asset::Zec => {},
        Asset::Dash => {},
        Asset::Btg => {},
        Asset::Etc => {},
        Asset::Bsv => {},
        Asset::Bch => {},
        Asset::Xvg => {},
        Asset::Usdt => {},
        Asset::Xrp => {},
        Asset::Arb => {},
        Asset::Bsc => {},
        Asset::Usdc => {},
        Asset::Trx => {},
        Asset::Sol => {},
    }
    let b = choose|b: Asset| b.spec_text() == a.spec_text();
    asset_text_identifies_asset(a, b);
}

proof fn lemma_format_word(f: OutputFormat)
    ensures
        !is_option(f.spec_text()),
        OutputFormat::spec_named(f.spec_text()) == Some(f),
{
    reveal_strlit("TXT");
    reveal_strlit("JSON");
    match f {
        OutputFormat::Txt => {},
        OutputFormat::Json => {},
    }
    let g = choose|g: OutputFormat| g.spec_text() == f.spec_text();
    format_text_identifies_format(f, g);
}

spec fn assets_then_formats(xs: Seq<Asset>, fs: Seq<OutputFormat>) -> Seq<Seq<char>> {
    xs.map_values(|a: Asset| a.spec_text()) + seq!["-f"@] + fs.map_values(
        |f: OutputFormat| f.spec_text(),
    )
}

spec fn settings_with(assets: Seq<Asset>, formats: Seq<OutputFormat>) -> GenerateSettings {
    GenerateSettings {
        assets: assets,
        sdn: DEFAULT_SDN_FILENAME@,
        output_formats: formats,
        outpath: "."@,
    }
}

proof fn lemma_formats_read(xs: Seq<Asset>, fs: Seq<OutputFormat>, m: int)
    requires
        0 <= m <= fs.len(),
    ensures
        generate_from(
            assets_then_formats(xs, fs),
            xs.len() + 1 + m,
            settings_with(xs, fs.take(m)),
            true,
        ) == Ok::<CommandView, CliErrorView>(CommandView::Generate(completed(settings_with(xs, fs)))),
    decreases fs.len() - m,
{
    let args = assets_then_formats(xs, fs);
    assert(args.len() == xs.len() + 1 + fs.len());
    if m < fs.len() {
        let i = xs.len() + 1 + m;
        assert(args[i] == fs[m].spec_text());
        lemma_format_word(fs[m]);
        assert(fs.take(m).push(fs[m]) =~= fs.take(m + 1));
        lemma_formats_read(xs, fs, m + 1);
    } else {
        assert(fs.take(m) =~= fs);
    }
}

proof fn lemma_assets_read(xs: Seq<Asset>, fs: Seq<OutputFormat>, k: int)
    requires
        0 <= k <= xs.len(),
    ensures
        generate_from(assets_then_formats(xs, fs), k, settings_with(xs.take(k), seq![]), false)
            == Ok::<CommandView, CliErrorView>(CommandView::Generate(completed(settings_with(xs, fs)))),
    decreases xs.len() - k,
{
    let args = assets_then_formats(xs, fs);
    assert(args.len() == xs.len() + 1 + fs.len());
    lemma_option_words();
    if k < xs.len() {
        assert(args[k] == xs[k].spec_text());
        lemma_asset_word(xs[k]);
        assert(xs.take(k).push(xs[k]) =~= xs.take(k + 1));
        lemma_assets_read(xs, fs, k + 1);
    } else {
        assert(args[k] == "-f"@);
        assert(xs.take(k) =~= xs);
        assert(fs.take(0) =~= Seq::<OutputFormat>::empty());
        lemma_formats_read(xs, fs, 0);
    }
}

/// A command line of asset names followed by `-f` and format names asks for
/// generation of exactly those assets in exactly those formats, in the order
/// given, from the default SDN file into the current directory. XBT stands in
/// only when no asset is named and TXT only when no format is, each whatever
/// the other part holds.
pub proof fn named_assets_and_formats_are_generated(xs: Seq<Asset>, fs: Seq<OutputFormat>)
    ensures
        command_line(
            xs.map_values(|a: Asset| a.spec_text()) + seq!["-f"@] + fs.map_values(
                |f: OutputFormat| f.spec_text(),
            ),
        ) == Ok::<CommandView, CliErrorView>(
            CommandView::Generate(
                GenerateSettings {
                    assets: if xs.len() == 0 {
                        seq![Asset::Xbt]
                    } else {
                        xs
                    },
                    sdn: DEFAULT_SDN_FILENAME@,
                    output_formats: if fs.len() == 0 {
                        seq![OutputFormat::Txt]
                    } else {
                        fs
                    },
                    outpath: "."@,
                },
            ),
        ),
{
    let args = assets_then_formats(xs, fs);
    reveal_strlit("fetch");
    reveal_strlit("-f");
    if xs.len() > 0 {
        lemma_asset_word(xs[0]);
        assert(args[0] == xs[0].spec_text());
    } else {
        assert(args[0] == "-f"@);
    }
    assert(args[0] != "fetch"@);
    assert(xs.take(0) =~= Seq::<Asset>::empty());
    assert(settings_with(seq![], seq![]) == generate_defaults());
    lemma_assets_read(xs, fs, 0);
}

/// The words after `-sdn` and `-path` become the SDN file and the output
/// directory, whatever they are, and the other settings keep their defaults.
pub proof fn option_values_are_taken_as_given(sdn: Seq<char>, dir: Seq<char>)
    ensures
        command_line(seq!["-sdn"@, sdn, "-path"@, dir]) == Ok::<CommandView, CliErrorView>(
            CommandView::Generate(
                GenerateSettings {
                    assets: seq![Asset::Xbt],
                    sdn: sdn,
                    output_formats: seq![OutputFormat::Txt],
                    outpath: dir,
                },
            ),
        ),
{
    lemma_option_words();
    reveal_strlit("fetch");
    reveal_strlit("-sdn");
    let args = seq!["-sdn"@, sdn, "-path"@, dir];
    assert(args[0] != "fetch"@);
    let s1 = GenerateSettings {
        assets: seq![],
        sdn: sdn,
        output_formats: seq![],
        outpath: "."@,
    };
    let s2 = GenerateSettings { assets: seq![], sdn: sdn, output_formats: seq![], outpath: dir };
    assert(generate_from(args, 4, s2, false) == Ok::<CommandView, CliErrorView>(
        CommandView::Generate(completed(s2)),
    ));
    assert(generate_from(args, 2, s1, false) == generate_from(args, 4, s2, false));
    assert(generate_from(args, 0, generate_defaults(), false) == generate_from(args, 2, s1, false));
}

/// Where an asset is expected, a word that is neither an option nor the
/// ticker symbol of an asset is refused as an invalid asset, and an option
/// that generation does not know is refused as unrecognized; after `-f`, a
/// word that is no option and names no format is refused as an invalid
/// format.
pub proof fn unknown_words_are_refused(w: Seq<char>)
    ensures
        !is_option(w) && Asset::spec_named(w) is None && w != "fetch"@ ==> command_line(seq![w])
            == Err::<CommandView, CliErrorView>(CliErrorView::InvalidAsset(w)),
        is_option(w) && w != "-h"@ && w != "--help"@ && w != "-sdn"@ && w
            != "--special-designated-nationals-list"@ && w != "-f"@ && w != "--output-format"@ && w
            != "-path"@ && w != "--output-path"@ ==> command_line(seq![w]) == Err::<
            CommandView,
            CliErrorView,
        >(CliErrorView::UnrecognizedOption(w)),
        !is_option(w) && OutputFormat::spec_named(w) is None ==> command_line(seq!["-f"@, w])
            == Err::<CommandView, CliErrorView>(CliErrorView::InvalidOutputFormat(w)),
{
    lemma_option_words();
    reveal_strlit("fetch");
    assert(is_option(w) ==> w != "fetch"@);
    let args = seq!["-f"@, w];
    assert(args[0] != "fetch"@);
    assert(generate_from(args, 0, generate_defaults(), false) == generate_from(
        args,
        1,
        generate_defaults(),
        true,
    ));
}

} // verus!
