use ofac_sanctioned_addresses::{
    address_files, addresses_json, addresses_txt, after_failed_download, asset_addresses,
    dedupe_preserve_order, extract_first_xml, feature_type_text, find_address_id,
    generate_address_lists, help_text, is_tls_verification_error, parse_args, parse_sdn_document,
    sanctioned_addresses, sort_addresses, Asset, CertificateCheck, CliError, Command,
    DownloadStep, GenerateArgs, HelpTopic, OutputFormat, DEFAULT_SDN_FILENAME, DEFAULT_SDN_URL,
    lowered_text_mentions_tls,
};
use std::io::{Cursor, Write};
use zip::write::SimpleFileOptions;
use zip::{CompressionMethod, ZipWriter};

fn words(args: &[&str]) -> Vec<String> {
    args.iter().map(|s| s.to_string()).collect()
}

fn strings(items: &[&str]) -> Vec<String> {
    items.iter().map(|s| s.to_string()).collect()
}

fn error_message(args: &[&str]) -> String {
    match parse_args(words(args)) {
        Err(e) => e.message(),
        Ok(other) => panic!("expected an error, got {other:?}"),
    }
}

fn zip_of(entries: &[(&str, &[u8])]) -> Vec<u8> {
    let mut buffer = Cursor::new(Vec::new());
    {
        let mut writer = ZipWriter::new(&mut buffer);
        let options = SimpleFileOptions::default().compression_method(CompressionMethod::Stored);
        for (name, data) in entries {
            writer.start_file(*name, options).unwrap();
            writer.write_all(data).unwrap();
        }
        writer.finish().unwrap();
    }
    buffer.into_inner()
}

const SDN: &str = r#"<Root xmlns:sdn="urn:sdn">
  <sdn:ReferenceValueSets>
    <sdn:FeatureTypeValues>
      <sdn:FeatureType ID="1">Digital Currency Address - XMR</sdn:FeatureType>
      <sdn:FeatureType ID="7">  Digital Currency Address - XBT
      </sdn:FeatureType>
      <sdn:FeatureType ID="8">Digital Currency Address - ETH</sdn:FeatureType>
    </sdn:FeatureTypeValues>
  </sdn:ReferenceValueSets>
  <Elsewhere><sdn:FeatureType ID="99">Digital Currency Address - LTC</sdn:FeatureType></Elsewhere>
  <sdn:DistinctParties>
    <sdn:Party FeatureTypeID="7">
      <sdn:VersionDetail>  zeta </sdn:VersionDetail>
      <sdn:VersionDetail>   </sdn:VersionDetail>
      <sdn:VersionDetail/>
      <Other>ignored</Other>
      <Deep><sdn:VersionDetail>Alpha</sdn:VersionDetail></Deep>
    </sdn:Party>
    <sdn:Party FeatureTypeID="8"><sdn:VersionDetail>eth-1</sdn:VersionDetail></sdn:Party>
    <sdn:Party FeatureTypeID="7"><sdn:VersionDetail>zeta</sdn:VersionDetail></sdn:Party>
    <sdn:VersionDetail>outside</sdn:VersionDetail>
    <sdn:Party sdn:FeatureTypeID="7"><sdn:VersionDetail>namespaced</sdn:VersionDetail></sdn:Party>
  </sdn:DistinctParties>
</Root>"#;

#[test]
fn asset_names_round_trip() {
    assert_eq!(Asset::all().len(), 18);
    for asset in Asset::all() {
        assert_eq!(Asset::from_text(asset.as_str()), Some(*asset));
    }
    assert_eq!(Asset::all()[0], Asset::Xbt);
    assert_eq!(Asset::all()[17], Asset::Sol);
    assert_eq!(Asset::Usdt.as_str(), "USDT");
    assert_eq!(Asset::from_text("DASH"), Some(Asset::Dash));
    assert_eq!(Asset::from_text("xbt"), None);
    assert_eq!(Asset::from_text(""), None);
    assert_eq!(Asset::from_text("XBT "), None);
}

#[test]
fn format_names_round_trip() {
    assert_eq!(OutputFormat::all(), &[OutputFormat::Txt, OutputFormat::Json]);
    for format in OutputFormat::all() {
        assert_eq!(OutputFormat::from_text(format.as_str()), Some(*format));
    }
    assert_eq!(OutputFormat::from_text("json"), None);
    assert_eq!(OutputFormat::from_text("CSV"), None);
}

#[test]
fn generation_defaults() {
    match parse_args(Vec::new()).unwrap() {
        Command::Generate(args) => {
            assert_eq!(args.assets, vec![Asset::Xbt]);
            assert_eq!(args.output_formats, vec![OutputFormat::Txt]);
            assert_eq!(args.sdn, DEFAULT_SDN_FILENAME);
            assert_eq!(args.outpath, ".");
        }
        other => panic!("unexpected command: {other:?}"),
    }
    match parse_args(words(&["-f", "-path", "dir", "SOL"])).unwrap() {
        Command::Generate(args) => {
            assert_eq!(args.assets, vec![Asset::Sol]);
            assert_eq!(args.output_formats, vec![OutputFormat::Txt]);
            assert_eq!(args.outpath, "dir");
        }
        other => panic!("unexpected command: {other:?}"),
    }
}

#[test]
fn long_options_and_repeats() {
    match parse_args(words(&[
        "--output-format",
        "TXT",
        "TXT",
        "--special-designated-nationals-list",
        "a.xml",
        "--output-path",
        "o",
        "ETH",
        "ETH",
    ]))
    .unwrap()
    {
        Command::Generate(args) => {
            assert_eq!(args.assets, vec![Asset::Eth, Asset::Eth]);
            assert_eq!(args.output_formats, vec![OutputFormat::Txt, OutputFormat::Txt]);
            assert_eq!(args.sdn, "a.xml");
            assert_eq!(args.outpath, "o");
        }
        other => panic!("unexpected command: {other:?}"),
    }
    match parse_args(words(&["-sdn", "-f"])).unwrap() {
        Command::Generate(args) => assert_eq!(args.sdn, "-f"),
        other => panic!("unexpected command: {other:?}"),
    }
}

#[test]
fn fetch_defaults_and_options() {
    match parse_args(words(&["fetch"])).unwrap() {
        Command::Fetch(args) => {
            assert_eq!(args.output, DEFAULT_SDN_FILENAME);
            assert_eq!(args.url, DEFAULT_SDN_URL);
        }
        other => panic!("unexpected command: {other:?}"),
    }
    match parse_args(words(&["fetch", "--output", "x.xml"])).unwrap() {
        Command::Fetch(args) => assert_eq!(args.output, "x.xml"),
        other => panic!("unexpected command: {other:?}"),
    }
}

#[test]
fn help_requests() {
    assert!(matches!(
        parse_args(words(&["XBT", "-h", "--bogus"])).unwrap(),
        Command::Help(HelpTopic::Generate)
    ));
    assert!(matches!(
        parse_args(words(&["--help"])).unwrap(),
        Command::Help(HelpTopic::Generate)
    ));
    assert!(matches!(
        parse_args(words(&["fetch", "-o", "f", "--help"])).unwrap(),
        Command::Help(HelpTopic::Fetch)
    ));
    assert!(matches!(
        parse_args(words(&["fetch", "-h"])).unwrap(),
        Command::Help(HelpTopic::Fetch)
    ));
    assert_eq!(error_message(&["--bogus", "-h"]), "unrecognized option: --bogus");
}

#[test]
fn parse_errors() {
    assert_eq!(error_message(&["-f", "XML"]), "invalid output format: XML");
    assert_eq!(error_message(&["-x"]), "unrecognized option: -x");
    assert_eq!(error_message(&["BTC"]), "invalid asset: BTC");
    assert_eq!(error_message(&["-sdn"]), "-sdn requires a value");
    assert_eq!(error_message(&["--output-path"]), "-path requires a value");
    assert_eq!(error_message(&["fetch", "--output"]), "-o requires a value");
    assert_eq!(error_message(&["fetch", "--url"]), "--url requires a value");
    assert_eq!(error_message(&["fetch", "XBT"]), "unexpected argument for fetch: XBT");
    assert_eq!(error_message(&["fetch", "-f"]), "unrecognized option: -f");
    assert_eq!(error_message(&["XBT", "fetch"]), "invalid asset: fetch");
}

#[test]
fn other_error_messages() {
    assert_eq!(
        CliError::SdnNotFound("data/sdn.xml".to_string()).message(),
        "data/sdn.xml does not exist. Run `generate-address-list fetch` first or pass `-sdn /path/to/sdn_advanced.xml`."
    );
    assert_eq!(
        CliError::NoXmlInArchive.message(),
        "No XML file found in the downloaded archive"
    );
    assert_eq!(CliError::Xml("bad".to_string()).message(), "bad");
    assert_eq!(CliError::Zip("broken".to_string()).message(), "broken");
}

#[test]
fn usage_texts() {
    assert_eq!(
        help_text(HelpTopic::Generate),
        "Usage: generate-address-list [ASSET ...] [-sdn FILE] [-f TXT JSON] [-path DIR]\n\nGenerate sanctioned digital currency address lists from an OFAC XML file.\n\nAssets: XBT ETH XMR LTC ZEC DASH BTG ETC BSV BCH XVG USDT XRP ARB BSC USDC TRX SOL\nFormats: TXT JSON\n\nFetch the input XML first with: generate-address-list fetch -o sdn_advanced.xml"
    );
    assert_eq!(
        help_text(HelpTopic::Fetch),
        "Usage: generate-address-list fetch [-o FILE] [--url URL]\n\nDownload the published OFAC SDN XML archive and extract the XML file."
    );
}

#[test]
fn feature_type_names() {
    assert_eq!(feature_type_text(Asset::Usdc), "Digital Currency Address - USDC");
}

#[test]
fn finds_feature_type_ids() {
    let doc = parse_sdn_document(SDN).unwrap();
    assert_eq!(find_address_id(&doc, Asset::Xbt).unwrap(), "7");
    assert_eq!(find_address_id(&doc, Asset::Xmr).unwrap(), "1");
    match find_address_id(&doc, Asset::Ltc) {
        Err(e) => assert_eq!(
            e.message(),
            "No FeatureType with the name Digital Currency Address - LTC found"
        ),
        Ok(id) => panic!("unexpected id {id}"),
    }
}

#[test]
fn collects_trimmed_addresses_in_document_order() {
    let doc = parse_sdn_document(SDN).unwrap();
    assert_eq!(
        sanctioned_addresses(&doc, "7"),
        strings(&["zeta", "Alpha", "zeta"])
    );
    assert_eq!(sanctioned_addresses(&doc, "8"), strings(&["eth-1"]));
    assert!(sanctioned_addresses(&doc, "3").is_empty());
    assert_eq!(
        asset_addresses(&doc, Asset::Xbt).unwrap(),
        strings(&["Alpha", "zeta"])
    );
}

#[test]
fn rejects_malformed_xml() {
    match parse_sdn_document("<Root><unclosed></Root>") {
        Err(CliError::Xml(message)) => assert!(!message.is_empty()),
        Err(other) => panic!("unexpected error {other:?}"),
        Ok(_) => panic!("malformed XML was accepted"),
    }
    let args = GenerateArgs {
        assets: vec![Asset::Xbt],
        sdn: "x".to_string(),
        output_formats: vec![OutputFormat::Txt],
        outpath: ".".to_string(),
    };
    let plan = generate_address_lists(&args, "not xml");
    assert!(plan.files.is_empty());
    assert!(matches!(plan.error, Some(CliError::Xml(_))));
}

#[test]
fn dedupe_keeps_first_occurrences() {
    let mut values = strings(&["b", "a", "b", "c", "a", "b"]);
    dedupe_preserve_order(&mut values);
    assert_eq!(values, strings(&["b", "a", "c"]));
    dedupe_preserve_order(&mut values);
    assert_eq!(values, strings(&["b", "a", "c"]));
    let mut empty: Vec<String> = Vec::new();
    dedupe_preserve_order(&mut empty);
    assert!(empty.is_empty());
}

#[test]
fn sorts_by_bytes() {
    let mut values = strings(&["b", "é", "B", "a", "ab", "", "z", "a"]);
    let mut expected = values.clone();
    expected.sort();
    sort_addresses(&mut values);
    assert_eq!(values, expected);
    assert_eq!(values, strings(&["", "B", "a", "a", "ab", "b", "z", "é"]));
    let sorted = values.clone();
    sort_addresses(&mut values);
    assert_eq!(values, sorted);
}

#[test]
fn list_files_per_format() {
    let addresses = strings(&["x"]);
    let txt_only = address_files(&addresses, Asset::Trx, &vec![OutputFormat::Txt]);
    assert_eq!(txt_only.len(), 1);
    assert_eq!(txt_only[0].file_name, "sanctioned_addresses_TRX.txt");
    let twice = address_files(
        &addresses,
        Asset::Trx,
        &vec![OutputFormat::Json, OutputFormat::Txt, OutputFormat::Json],
    );
    assert_eq!(twice.len(), 2);
    assert_eq!(twice[0].file_name, "sanctioned_addresses_TRX.txt");
    assert_eq!(twice[1].file_name, "sanctioned_addresses_TRX.json");
    assert!(address_files(&addresses, Asset::Trx, &Vec::new()).is_empty());
}

#[test]
fn text_and_json_contents() {
    let empty: Vec<String> = Vec::new();
    assert_eq!(addresses_txt(&empty), "");
    assert_eq!(addresses_json(&empty), "[]\n");
    let odd = strings(&["a\"b", "c\\d", "e\nf\tg", "h\u{1}i\u{7f}", "ü"]);
    assert_eq!(addresses_txt(&odd), "a\"b\nc\\d\ne\nf\tg\nh\u{1}i\u{7f}\nü\n");
    assert_eq!(
        addresses_json(&odd),
        "[\n  \"a\\\"b\",\n  \"c\\\\d\",\n  \"e\\nf\\tg\",\n  \"h\\u0001i\u{7f}\",\n  \"ü\"\n]\n"
    );
    assert_eq!(
        addresses_json(&strings(&["\u{8}\u{c}\r\u{1f}"])),
        "[\n  \"\\b\\f\\r\\u001f\"\n]\n"
    );
}

#[test]
fn generation_stops_at_missing_feature_type() {
    let args = GenerateArgs {
        assets: vec![Asset::Eth, Asset::Ltc, Asset::Xbt],
        sdn: "x".to_string(),
        output_formats: vec![OutputFormat::Json],
        outpath: ".".to_string(),
    };
    let plan = generate_address_lists(&args, SDN);
    assert_eq!(plan.files.len(), 1);
    assert_eq!(plan.files[0].file_name, "sanctioned_addresses_ETH.json");
    assert_eq!(plan.files[0].contents, "[\n  \"eth-1\"\n]\n");
    match plan.error {
        Some(CliError::FeatureTypeNotFound(name)) => {
            assert_eq!(name, "Digital Currency Address - LTC")
        }
        other => panic!("unexpected outcome {other:?}"),
    }
}

#[test]
fn extracts_xml_in_any_case() {
    let archive = zip_of(&[("a.txt", b"no"), ("DATA.XML", b"<x/>"), ("b.xml", b"<y/>")]);
    assert_eq!(extract_first_xml(&archive).unwrap(), b"<x/>");
    let none = zip_of(&[("a.txt", b"no"), ("xml", b"<x/>"), (".xmlx", b"<y/>")]);
    assert!(matches!(extract_first_xml(&none), Err(CliError::NoXmlInArchive)));
    let empty = zip_of(&[]);
    assert!(matches!(extract_first_xml(&empty), Err(CliError::NoXmlInArchive)));
    match extract_first_xml(b"definitely not a zip archive") {
        Err(CliError::Zip(message)) => assert!(!message.is_empty()),
        other => panic!("unexpected outcome {other:?}"),
    }
}

#[test]
fn recognises_tls_failures() {
    assert!(is_tls_verification_error("TLS handshake failed"));
    assert!(is_tls_verification_error("invalid peer Certificate: UnknownIssuer"));
    assert!(is_tls_verification_error("SSL: CERTIFICATE VERIFY FAILED"));
    assert!(!is_tls_verification_error("connection refused"));
    assert!(!is_tls_verification_error("t l s"));
    assert!(!is_tls_verification_error(""));
}

#[test]
fn retries_only_checked_tls_failures() {
    assert_eq!(
        after_failed_download(CertificateCheck::Enforced, "TLS error"),
        DownloadStep::RetryWithoutCertificateCheck
    );
    assert_eq!(
        after_failed_download(CertificateCheck::Enforced, "404 Not Found"),
        DownloadStep::GiveUp { report: false }
    );
    assert_eq!(
        after_failed_download(CertificateCheck::Skipped, "TLS error"),
        DownloadStep::GiveUp { report: true }
    );
}

#[test]
fn long_and_short_options_agree_on_examples() {
    let same = |short: &[&str], long: &[&str]| {
        let a = format!("{:?}", parse_args(words(short)).map_err(|e| e.message()));
        let b = format!("{:?}", parse_args(words(long)).map_err(|e| e.message()));
        assert_eq!(a, b);
    };
    same(
        &["ETH", "-f", "JSON", "-sdn", "in.xml", "-path", "out"],
        &["ETH", "--output-format", "JSON", "--special-designated-nationals-list", "in.xml", "--output-path", "out"],
    );
    same(&["-sdn"], &["--special-designated-nationals-list"]);
    same(&["-path"], &["--output-path"]);
    same(&["-f", "CSV"], &["--output-format", "CSV"]);
    same(&["XBT", "-h"], &["XBT", "--help"]);
    same(&["-sdn", "-f"], &["--special-designated-nationals-list", "-f"]);
    same(&["fetch", "-o", "x.xml", "-h"], &["fetch", "--output", "x.xml", "--help"]);
    same(&["fetch", "-o"], &["fetch", "--output"]);
}

#[test]
fn lowered_messages_that_mention_tls() {
    assert!(lowered_text_mentions_tls("tls handshake eof"));
    assert!(lowered_text_mentions_tls("invalid peer certificate"));
    assert!(!lowered_text_mentions_tls("TLS"));
    assert!(!lowered_text_mentions_tls("timed out"));
}
