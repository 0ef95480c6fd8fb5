use ofac_sanctioned_addresses::{
    address_files, dedupe_preserve_order, extract_first_xml, find_address_id,
    generate_address_lists, parse_args, parse_sdn_document, sanctioned_addresses, sort_addresses,
    Asset, Command, GenerateArgs, OutputFormat,
};
use std::io::{Cursor, Write};
use zip::write::SimpleFileOptions;
use zip::{CompressionMethod, ZipWriter};

fn words(args: &[&str]) -> Vec<String> {
    args.iter().map(|s| s.to_string()).collect()
}

#[test]
fn parses_asset_ids_and_addresses() {
    let xml = r#"
        <Root xmlns="https://sanctionslistservice.ofac.treas.gov/api/PublicationPreview/exports/ADVANCED_XML"
              xmlns:sdn="https://sanctionslistservice.ofac.treas.gov/api/PublicationPreview/exports/ADVANCED_XML">
          <sdn:ReferenceValueSets>
            <sdn:FeatureTypeValues>
              <sdn:FeatureType ID="123">Digital Currency Address - XBT</sdn:FeatureType>
            </sdn:FeatureTypeValues>
          </sdn:ReferenceValueSets>
          <sdn:DistinctParties>
            <sdn:Party FeatureTypeID="123">
              <sdn:VersionDetail>b</sdn:VersionDetail>
              <sdn:VersionDetail>a</sdn:VersionDetail>
              <sdn:VersionDetail>b</sdn:VersionDetail>
            </sdn:Party>
          </sdn:DistinctParties>
        </Root>
    "#;

    let doc = parse_sdn_document(xml).unwrap();
    let id = find_address_id(&doc, Asset::Xbt).unwrap();
    let mut addresses = sanctioned_addresses(&doc, &id);
    dedupe_preserve_order(&mut addresses);
    sort_addresses(&mut addresses);

    assert_eq!(id, "123");
    assert_eq!(addresses, vec!["a".to_string(), "b".to_string()]);
}

#[test]
fn writes_text_and_json_outputs() {
    let addresses = vec!["addr1".to_string(), "addr2".to_string()];
    let files = address_files(
        &addresses,
        Asset::Xbt,
        &vec![OutputFormat::Txt, OutputFormat::Json],
    );

    assert_eq!(files.len(), 2);
    assert_eq!(files[0].file_name, "sanctioned_addresses_XBT.txt");
    assert_eq!(files[0].contents, "addr1\naddr2\n");
    assert_eq!(files[1].file_name, "sanctioned_addresses_XBT.json");
    assert_eq!(files[1].contents, "[\n  \"addr1\",\n  \"addr2\"\n]\n");
}

#[test]
fn parses_fetch_and_generate_arguments() {
    match parse_args(words(&[
        "fetch",
        "-o",
        "custom.xml",
        "--url",
        "https://example.invalid/archive.zip",
    ]))
    .unwrap()
    {
        Command::Fetch(args) => {
            assert_eq!(args.output, "custom.xml");
            assert_eq!(args.url, "https://example.invalid/archive.zip");
        }
        other => panic!("unexpected command: {other:?}"),
    }

    match parse_args(words(&[
        "ETH", "XBT", "-f", "JSON", "TXT", "-sdn", "input.xml", "-path", "out",
    ]))
    .unwrap()
    {
        Command::Generate(args) => {
            assert_eq!(args.assets, vec![Asset::Eth, Asset::Xbt]);
            assert_eq!(args.sdn, "input.xml");
            assert_eq!(
                args.output_formats,
                vec![OutputFormat::Json, OutputFormat::Txt]
            );
            assert_eq!(args.outpath, "out");
        }
        other => panic!("unexpected command: {other:?}"),
    }
}

#[test]
fn extracts_first_xml_from_zip_archive() {
    let mut buffer = Cursor::new(Vec::new());
    {
        let mut writer = ZipWriter::new(&mut buffer);
        let options = SimpleFileOptions::default().compression_method(CompressionMethod::Stored);
        writer.start_file("notes.txt", options).unwrap();
        writer.write_all(b"ignore me").unwrap();
        writer.start_file("sdn_advanced.xml", options).unwrap();
        writer.write_all(b"<root>ok</root>").unwrap();
        writer.finish().unwrap();
    }

    let xml = extract_first_xml(buffer.get_ref()).unwrap();
    assert_eq!(xml, b"<root>ok</root>");
}

#[test]
fn generates_outputs_for_multiple_assets() {
    let sdn = r#"
        <Root xmlns="https://sanctionslistservice.ofac.treas.gov/api/PublicationPreview/exports/ADVANCED_XML"
              xmlns:sdn="https://sanctionslistservice.ofac.treas.gov/api/PublicationPreview/exports/ADVANCED_XML">
          <sdn:ReferenceValueSets>
            <sdn:FeatureTypeValues>
              <sdn:FeatureType ID="11">Digital Currency Address - XBT</sdn:FeatureType>
              <sdn:FeatureType ID="22">Digital Currency Address - ETH</sdn:FeatureType>
            </sdn:FeatureTypeValues>
          </sdn:ReferenceValueSets>
          <sdn:DistinctParties>
            <sdn:Party FeatureTypeID="11">
              <sdn:VersionDetail>btc-2</sdn:VersionDetail>
              <sdn:VersionDetail>btc-1</sdn:VersionDetail>
              <sdn:VersionDetail>btc-1</sdn:VersionDetail>
            </sdn:Party>
            <sdn:Party FeatureTypeID="22">
              <sdn:VersionDetail>eth-1</sdn:VersionDetail>
            </sdn:Party>
          </sdn:DistinctParties>
        </Root>
    "#;

    let args = GenerateArgs {
        assets: vec![Asset::Xbt, Asset::Eth],
        sdn: "sdn_advanced.xml".to_string(),
        output_formats: vec![OutputFormat::Txt, OutputFormat::Json],
        outpath: "out".to_string(),
    };
    let plan = generate_address_lists(&args, sdn);
    assert!(plan.error.is_none());

    let contents = |name: &str| {
        plan.files
            .iter()
            .find(|f| f.file_name == name)
            .map(|f| f.contents.clone())
            .unwrap()
    };
    assert_eq!(contents("sanctioned_addresses_XBT.txt"), "btc-1\nbtc-2\n");
    assert_eq!(contents("sanctioned_addresses_ETH.txt"), "eth-1\n");
    assert_eq!(
        contents("sanctioned_addresses_XBT.json"),
        "[\n  \"btc-1\",\n  \"btc-2\"\n]\n"
    );
}
