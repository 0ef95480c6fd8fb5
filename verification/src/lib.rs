//! Lists of the digital currency addresses that OFAC's Specially Designated
//! Nationals (SDN) list sanctions, read from the SDN advanced XML file.
use vstd::prelude::*;

pub mod text;
pub mod asset;
pub mod cli;
pub mod xml;
pub mod addresses;
pub mod lists;
pub mod output;
pub mod archive;
pub mod download;

pub use asset::{Asset, OutputFormat};
pub use cli::{
    CliError, Command, FetchArgs, GenerateArgs, HelpTopic, DEFAULT_SDN_FILENAME, DEFAULT_SDN_URL,
    help_text, parse_args,
};
pub use xml::{XmlAttribute, XmlDocument, XmlNode, parse_sdn_document};
pub use addresses::{
    GenerationPlan, asset_addresses, feature_type_text, find_address_id, generate_address_lists,
    sanctioned_addresses,
};
pub use lists::{dedupe_preserve_order, sort_addresses};
pub use output::{OutputFile, address_files, addresses_json, addresses_txt};
pub use archive::extract_first_xml;
pub use download::{
    CertificateCheck, DownloadStep, after_failed_download, is_tls_verification_error,
    lowered_text_mentions_tls,
};
