use vstd::prelude::*;
use crate::asset::{Asset, OutputFormat};
use crate::text::{concat, texts, join_with};

verus! {

/// A file to write into the output directory.
#[derive(Debug, Clone)]
pub struct OutputFile {
    pub file_name: String,
    pub contents: String,
}

impl View for OutputFile {
    type V = (Seq<char>, Seq<char>);

    open spec fn view(&self) -> (Seq<char>, Seq<char>) {
        (self.file_name@, self.contents@)
    }
}

/// The mathematical values of a list of files.
pub open spec fn file_views(files: Seq<OutputFile>) -> Seq<(Seq<char>, Seq<char>)> {
    files.map_values(|f: OutputFile| f@)
}

/// The name of the list file of `asset` with extension `ext`.
pub open spec fn list_file_name(asset: Asset, ext: Seq<char>) -> Seq<char> {
    "sanctioned_addresses_"@ + asset.spec_text() + ext
}

/// The addresses one per line, each line ended by a newline.
pub open spec fn text_lines(addresses: Seq<Seq<char>>) -> Seq<char>
    decreases addresses.len(),
{
    if addresses.len() == 0 {
        seq![]
    } else {
        text_lines(addresses.drop_last()) + addresses.last() + "\n"@
    }
}

/// A hexadecimal digit in small letters.
pub open spec fn hex_digit(d: int) -> char {
    if d < 10 {
        (48 + d) as char
    } else {
        (87 + d) as char
    }
}

/// How `serde_json` writes a character inside a string: quote, backslash and
/// the control characters below U+0020 escaped, all else as it is.
pub open spec fn json_char(c: char) -> Seq<char> {
    if c == '"' {
        seq!['\\', '"']
    } else if c == '\\' {
        seq!['\\', '\\']
    } else if c == '\u{8}' {
        seq!['\\', 'b']
    } else if c == '\u{c}' {
        seq!['\\', 'f']
    } else if c == '\n' {
        seq!['\\', 'n']
    } else if c == '\r' {
        seq!['\\', 'r']
    } else if c == '\t' {
        seq!['\\', 't']
    } else if (c as u32) < 0x20 {
        seq!['\\', 'u', '0', '0', hex_digit((c as u32) as int / 16), hex_digit((c as u32) as int % 16)]
    } else {
        seq![c]
    }
}

/// The escaped characters of a string.
pub open spec fn json_chars(s: Seq<char>) -> Seq<char>
    decreases s.len(),
{
    if s.len() == 0 {
        seq![]
    } else {
        json_chars(s.drop_last()) + json_char(s.last())
    }
}

/// A string as a JSON string literal.
pub open spec fn json_string(s: Seq<char>) -> Seq<char> {
    seq!['"'] + json_chars(s) + seq!['"']
}

/// An array of strings in `serde_json`'s pretty layout: `[]` when empty, else
/// one element per line, indented by two spaces.
pub open spec fn json_array_pretty(items: Seq<Seq<char>>) -> Seq<char> {
    if items.len() == 0 {
        "[]"@
    } else {
        "[\n"@ + join_with(items.map_values(|s: Seq<char>| "  "@ + json_string(s)), ",\n"@)
            + "\n]"@
    }
}

/// Renders the strings as a pretty JSON array with
/// `serde_json::to_string_pretty`, which writes what `to_writer_pretty`
/// writes. Trusted: the text is the layout `json_array_pretty` states, read
/// off serde_json's `PrettyFormatter` and string escaping. The call cannot
/// fail here: its errors come from the writer, and a `Vec<u8>` reports none,
/// or from a `Serialize` impl, and `String`'s reports none.
#[verifier::external_body]
fn pretty_json(items: &Vec<String>) -> (r: String)
    ensures
        r@ == json_array_pretty(texts(items@)),
{
    serde_json::to_string_pretty(items).unwrap()
}

/// The text list of addresses: each address on a line of its own.
pub fn addresses_txt(addresses: &Vec<String>) -> (r: String)
    ensures
        r@ == text_lines(texts(addresses@)),
{
    let ghost all = texts(addresses@);
    let mut out = "".to_owned();
    proof {
        reveal_strlit("");
        assert(all.take(0) =~= Seq::<Seq<char>>::empty());
    }
    let n = addresses.len();
    let mut i: usize = 0;
    while i < n
        invariant
            i <= n,
            n == addresses@.len(),
            all == texts(addresses@),
            out@ == text_lines(all.take(i as int)),
        decreases n - i,
    {
        out.append(addresses[i].as_str());
        out.append("\n");
        assert(all.take(i + 1).drop_last() =~= all.take(i as int));
        assert(out@ =~= text_lines(all.take(i as int)) + all[i as int] + "\n"@);
        i = i + 1;
    }
    assert(all.take(n as int) =~= all);
    out
}

/// The JSON list of addresses: a pretty JSON array and a newline.
pub fn addresses_json(addresses: &Vec<String>) -> (r: String)
    ensures
        r@ == json_array_pretty(texts(addresses@)) + "\n"@,
{
    let json = pretty_json(addresses);
    concat(json.as_str(), "\n")
}

/// The files that hold the list of `asset` in the requested formats: the
/// text list when TXT is requested, then the JSON list when JSON is.
pub open spec fn list_files(
    addresses: Seq<Seq<char>>,
    asset: Asset,
    formats: Seq<OutputFormat>,
) -> Seq<(Seq<char>, Seq<char>)> {
    (if formats.contains(OutputFormat::Txt) {
        seq![(list_file_name(asset, ".txt"@), text_lines(addresses))]
    } else {
        seq![]
    }) + (if formats.contains(OutputFormat::Json) {
        seq![(list_file_name(asset, ".json"@), json_array_pretty(addresses) + "\n"@)]
    } else {
        seq![]
    })
}

fn requests(formats: &Vec<OutputFormat>, format: OutputFormat) -> (r: bool)
    ensures
        r == formats@.contains(format),
{
    let n = formats.len();
    let mut i: usize = 0;
    while i < n
        invariant
            i <= n,
            n == formats@.len(),
            forall|k: int| 0 <= k < i ==> formats@[k] != format,
        decreases n - i,
    {
        if formats[i] == format {
            return true;
        }
        i = i + 1;
    }
    false
}

/// The files that hold the list of `asset` in the requested formats.
pub fn address_files(addresses: &Vec<String>, asset: Asset, formats: &Vec<OutputFormat>) -> (r: Vec<
    OutputFile,
>)
    ensures
        file_views(r@) == list_files(texts(addresses@), asset, formats@),
{
    let mut files: Vec<OutputFile> = Vec::new();
    let stem = concat("sanctioned_addresses_", asset.as_str());
    let ghost txt: Seq<(Seq<char>, Seq<char>)> = if formats@.contains(OutputFormat::Txt) {
        seq![(list_file_name(asset, ".txt"@), text_lines(texts(addresses@)))]
    } else {
        seq![]
    };
    if requests(formats, OutputFormat::Txt) {
        files.push(
            OutputFile { file_name: concat(stem.as_str(), ".txt"), contents: addresses_txt(addresses) },
        );
    }
    assert(file_views(files@) =~= txt);
    if requests(formats, OutputFormat::Json) {
        files.push(
            OutputFile {
                file_name: concat(stem.as_str(), ".json"),
                contents: addresses_json(addresses),
            },
        );
    }
    assert(file_views(files@) =~= list_files(texts(addresses@), asset, formats@));
    files
}

} // verus!
