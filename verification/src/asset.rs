use vstd::prelude::*;
use crate::text::same_text;

verus! {

/// A digital currency whose sanctioned addresses can be listed.
#[derive(Debug, Clone, Copy, PartialEq, Eq, Hash, Structural)]
pub enum Asset {
    Xbt,
    Eth,
    Xmr,
    Ltc,
    Zec,
    Dash,
    Btg,
    Etc,
    Bsv,
    Bch,
    Xvg,
    Usdt,
    Xrp,
    Arb,
    Bsc,
    Usdc,
    Trx,
    Sol,
}

impl Asset {
    /// The ticker symbol that names the asset on the command line and in the
    /// SDN feature type.
    pub open spec fn spec_text(self) -> Seq<char> {
        match self {
            Asset::Xbt => "XBT"@,
            Asset::Eth => "ETH"@,
            Asset::Xmr => "XMR"@,
            Asset::Ltc => "LTC"@,
            Asset::Zec => "ZEC"@,
            Asset::Dash => "DASH"@,
            Asset::Btg => "BTG"@,
            Asset::Etc => "ETC"@,
            Asset::Bsv => "BSV"@,
            Asset::Bch => "BCH"@,
            Asset::Xvg => "XVG"@,
            Asset::Usdt => "USDT"@,
            Asset::Xrp => "XRP"@,
            Asset::Arb => "ARB"@,
            Asset::Bsc => "BSC"@,
            Asset::Usdc => "USDC"@,
            Asset::Trx => "TRX"@,
            Asset::Sol => "SOL"@,
        }
    }

    /// The asset whose ticker symbol is `s`, if there is one.
    pub open spec fn spec_named(s: Seq<char>) -> Option<Asset> {
        if exists|a: Asset| a.spec_text() == s {
            Some(choose|a: Asset| a.spec_text() == s)
        } else {
            None
        }
    }

    /// Every asset, in declaration order.
    pub open spec fn spec_all() -> Seq<Asset> {
        seq![Asset::Xbt, Asset::Eth, Asset::Xmr, Asset::Ltc, Asset::Zec, Asset::Dash, Asset::Btg, Asset::Etc, Asset::Bsv, Asset::Bch, Asset::Xvg, Asset::Usdt, Asset::Xrp, Asset::Arb, Asset::Bsc, Asset::Usdc, Asset::Trx, Asset::Sol]
    }

    /// The ticker symbol of the asset.
    pub fn as_str(&self) -> (s: &'static str)
        ensures
            s@ == self.spec_text(),
    {
        match self {
            Asset::Xbt => "XBT",
            Asset::Eth => "ETH",
            Asset::Xmr => "XMR",
            Asset::Ltc => "LTC",
            Asset::Zec => "ZEC",
            Asset::Dash => "DASH",
            Asset::Btg => "BTG",
            Asset::Etc => "ETC",
            Asset::Bsv => "BSV",
            Asset::Bch => "BCH",
            Asset::Xvg => "XVG",
            Asset::Usdt => "USDT",
            Asset::Xrp => "XRP",
            Asset::Arb => "ARB",
            Asset::Bsc => "BSC",
            Asset::Usdc => "USDC",
            Asset::Trx => "TRX",
            Asset::Sol => "SOL",
        }
    }

    /// The asset whose ticker symbol is `value`, if there is one.
    pub fn from_text(value: &str) -> (r: Option<Self>)
        ensures
            match r {
                Some(a) => a.spec_text() == value@,
                None => forall|a: Asset| a.spec_text() != value@,
            },
            r == Self::spec_named(value@),
    {
        let r = Self::match_text(value);
        proof {
            if let Some(a) = r {
                let b = choose|b: Asset| b.spec_text() == value@;
                asset_text_identifies_asset(a, b);
            }
        }
        r
    }

    fn match_text(value: &str) -> (r: Option<Self>)
        ensures
            match r {
                Some(a) => a.spec_text() == value@,
                None => forall|a: Asset| a.spec_text() != value@,
            },
    {
        if same_text(value, "XBT") {
            Some(Asset::Xbt)
        } else if same_text(value, "ETH") {
            Some(Asset::Eth)
        } else if same_text(value, "XMR") {
            Some(Asset::Xmr)
        } else if same_text(value, "LTC") {
            Some(Asset::Ltc)
        } else if same_text(value, "ZEC") {
            Some(Asset::Zec)
        } else if same_text(value, "DASH") {
            Some(Asset::Dash)
        } else if same_text(value, "BTG") {
            Some(Asset::Btg)
        } else if same_text(value, "ETC") {
            Some(Asset::Etc)
        } else if same_text(value, "BSV") {
            Some(Asset::Bsv)
        } else if same_text(value, "BCH") {
            Some(Asset::Bch)
        } else if same_text(value, "XVG") {
            Some(Asset::Xvg)
        } else if same_text(value, "USDT") {
            Some(Asset::Usdt)
        } else if same_text(value, "XRP") {
            Some(Asset::Xrp)
        } else if same_text(value, "ARB") {
            Some(Asset::Arb)
        } else if same_text(value, "BSC") {
            Some(Asset::Bsc)
        } else if same_text(value, "USDC") {
            Some(Asset::Usdc)
        } else if same_text(value, "TRX") {
            Some(Asset::Trx)
        } else if same_text(value, "SOL") {
            Some(Asset::Sol)
        } else {
            None
        }
    }

    /// Every asset, in declaration order.
    pub fn all() -> (r: &'static [Asset])
        ensures
            r@ == Self::spec_all(),
    {
        &[Asset::Xbt, Asset::Eth, Asset::Xmr, Asset::Ltc, Asset::Zec, Asset::Dash, Asset::Btg, Asset::Etc, Asset::Bsv, Asset::Bch, Asset::Xvg, Asset::Usdt, Asset::Xrp, Asset::Arb, Asset::Bsc, Asset::Usdc, Asset::Trx, Asset::Sol]
    }
}

/// A format in which an address list can be written.
#[derive(Debug, Clone, Copy, PartialEq, Eq, Structural)]
pub enum OutputFormat {
    Txt,
    Json,
}

impl OutputFormat {
    /// The name that selects the format on the command line.
    pub open spec fn spec_text(self) -> Seq<char> {
        match self {
            OutputFormat::Txt => "TXT"@,
            OutputFormat::Json => "JSON"@,
        }
    }

    /// The format whose name is `s`, if there is one.
    pub open spec fn spec_named(s: Seq<char>) -> Option<OutputFormat> {
        if exists|f: OutputFormat| f.spec_text() == s {
            Some(choose|f: OutputFormat| f.spec_text() == s)
        } else {
            None
        }
    }

    /// Every format, in declaration order.
    pub open spec fn spec_all() -> Seq<OutputFormat> {
        seq![OutputFormat::Txt, OutputFormat::Json]
    }

    /// The name of the format.
    pub fn as_str(&self) -> (s: &'static str)
        ensures
            s@ == self.spec_text(),
    {
        match self {
            OutputFormat::Txt => "TXT",
            OutputFormat::Json => "JSON",
        }
    }

    /// The format whose name is `value`, if there is one.
    pub fn from_text(value: &str) -> (r: Option<Self>)
        ensures
            match r {
                Some(f) => f.spec_text() == value@,
                None => forall|f: OutputFormat| f.spec_text() != value@,
            },
            r == Self::spec_named(value@),
    {
        let r = if same_text(value, "TXT") {
            Some(OutputFormat::Txt)
        } else if same_text(value, "JSON") {
            Some(OutputFormat::Json)
        } else {
            None
        };
        proof {
            if let Some(a) = r {
                assert(a.spec_text() == value@);
                let b = choose|b: OutputFormat| b.spec_text() == value@;
                format_text_identifies_format(a, b);
            }
        }
        r
    }

    /// Every format, in declaration order.
    pub fn all() -> (r: &'static [OutputFormat])
        ensures
            r@ == Self::spec_all(),
    {
        &[OutputFormat::Txt, OutputFormat::Json]
    }
}

/// The asset whose ticker symbol is `s`, read off the symbols one by one.
spec fn asset_of_text(s: Seq<char>) -> Option<Asset> {
    if s.len() == 3 && s[0] == 'X' && s[1] == 'B' && s[2] == 'T' {
        Some(Asset::Xbt)
    } else if s.len() == 3 && s[0] == 'E' && s[1] == 'T' && s[2] == 'H' {
        Some(Asset::Eth)
    } else if s.len() == 3 && s[0] == 'X' && s[1] == 'M' && s[2] == 'R' {
        Some(Asset::Xmr)
    } else if s.len() == 3 && s[0] == 'L' && s[1] == 'T' && s[2] == 'C' {
        Some(Asset::Ltc)
    } else if s.len() == 3 && s[0] == 'Z' && s[1] == 'E' && s[2] == 'C' {
        Some(Asset::Zec)
    } else if s.len() == 4 && s[0] == 'D' && s[1] == 'A' && s[2] == 'S' && s[3] == 'H' {
        Some(Asset::Dash)
    } else if s.len() == 3 && s[0] == 'B' && s[1] == 'T' && s[2] == 'G' {
        Some(Asset::Btg)
    } else if s.len() == 3 && s[0] == 'E' && s[1] == 'T' && s[2] == 'C' {
        Some(Asset::Etc)
    } else if s.len() == 3 && s[0] == 'B' && s[1] == 'S' && s[2] == 'V' {
        Some(Asset::Bsv)
    } else if s.len() == 3 && s[0] == 'B' && s[1] == 'C' && s[2] == 'H' {
        Some(Asset::Bch)
    } else if s.len() == 3 && s[0] == 'X' && s[1] == 'V' && s[2] == 'G' {
        Some(Asset::Xvg)
    } else if s.len() == 4 && s[0] == 'U' && s[1] == 'S' && s[2] == 'D' && s[3] == 'T' {
        Some(Asset::Usdt)
    } else if s.len() == 3 && s[0] == 'X' && s[1] == 'R' && s[2] == 'P' {
        Some(Asset::Xrp)
    } else if s.len() == 3 && s[0] == 'A' && s[1] == 'R' && s[2] == 'B' {
        Some(Asset::Arb)
    } else if s.len() == 3 && s[0] == 'B' && s[1] == 'S' && s[2] == 'C' {
        Some(Asset::Bsc)
    } else if s.len() == 4 && s[0] == 'U' && s[1] == 'S' && s[2] == 'D' && s[3] == 'C' {
        Some(Asset::Usdc)
    } else if s.len() == 3 && s[0] == 'T' && s[1] == 'R' && s[2] == 'X' {
        Some(Asset::Trx)
    } else if s.len() == 3 && s[0] == 'S' && s[1] == 'O' && s[2] == 'L' {
        Some(Asset::Sol)
    } else {
        None
    }
}

proof fn lemma_asset_text_decodes(a: Asset)
    ensures
        asset_of_text(a.spec_text()) == Some(a),
{
    reveal_strlit("XBT");
    reveal_strlit("ETH");
    reveal_strlit("XMR");
    reveal_strlit("LTC");
    reveal_strlit("ZEC");
    reveal_strlit("DASH");
    reveal_strlit("BTG");
    reveal_strlit("ETC");
    reveal_strlit("BSV");
    reveal_strlit("BCH");
    reveal_strlit("XVG");
    reveal_strlit("USDT");
    reveal_strlit("XRP");
    reveal_strlit("ARB");
    reveal_strlit("BSC");
    reveal_strlit("USDC");
    reveal_strlit("TRX");
    reveal_strlit("SOL");
    match a {
        Asset::Xbt => {}
        Asset::Eth => {}
        Asset::Xmr => {}
        Asset::Ltc => {}
        Asset::Zec => {}
        Asset::Dash => {}
        Asset::Btg => {}
        Asset::Etc => {}
        Asset::Bsv => {}
        Asset::Bch => {}
        Asset::Xvg => {}
        Asset::Usdt => {}
        Asset::Xrp => {}
        Asset::Arb => {}
        Asset::Bsc => {}
        Asset::Usdc => {}
        Asset::Trx => {}
        Asset::Sol => {}
    }
}

/// Distinct assets have distinct ticker symbols, so a symbol names at most
/// one asset and `from_text` of `as_str` gives the asset back.
pub proof fn asset_text_identifies_asset(a: Asset, b: Asset)
    ensures
        a.spec_text() == b.spec_text() <==> a == b,
{
    reveal_strlit("XBT");
    reveal_strlit("ETH");
    reveal_strlit("XMR");
    reveal_strlit("LTC");
    reveal_strlit("ZEC");
    reveal_strlit("DASH");
    reveal_strlit("BTG");
    reveal_strlit("ETC");
    reveal_strlit("BSV");
    reveal_strlit("BCH");
    reveal_strlit("XVG");
    reveal_strlit("USDT");
    reveal_strlit("XRP");
    reveal_strlit("ARB");
    reveal_strlit("BSC");
    reveal_strlit("USDC");
    reveal_strlit("TRX");
    reveal_strlit("SOL");
    lemma_asset_text_decodes(a);
    lemma_asset_text_decodes(b);
}

/// Every asset occurs exactly once in the list of all assets.
pub proof fn all_assets_listed_once(a: Asset)
    ensures
        Asset::spec_all().contains(a),
        forall|i: int, j: int|
            0 <= i < j < Asset::spec_all().len() ==> Asset::spec_all()[i] != Asset::spec_all()[j],
{
    match a {
        Asset::Xbt => assert(Asset::spec_all()[0] == a),
        Asset::Eth => assert(Asset::spec_all()[1] == a),
        Asset::Xmr => assert(Asset::spec_all()[2] == a),
        Asset::Ltc => assert(Asset::spec_all()[3] == a),
        Asset::Zec => assert(Asset::spec_all()[4] == a),
        Asset::Dash => assert(Asset::spec_all()[5] == a),
        Asset::Btg => assert(Asset::spec_all()[6] == a),
        Asset::Etc => assert(Asset::spec_all()[7] == a),
        Asset::Bsv => assert(Asset::spec_all()[8] == a),
        Asset::Bch => assert(Asset::spec_all()[9] == a),
        Asset::Xvg => assert(Asset::spec_all()[10] == a),
        Asset::Usdt => assert(Asset::spec_all()[11] == a),
        Asset::Xrp => assert(Asset::spec_all()[12] == a),
        Asset::Arb => assert(Asset::spec_all()[13] == a),
        Asset::Bsc => assert(Asset::spec_all()[14] == a),
        Asset::Usdc => assert(Asset::spec_all()[15] == a),
        Asset::Trx => assert(Asset::spec_all()[16] == a),
        Asset::Sol => assert(Asset::spec_all()[17] == a),
    }
}

/// Distinct formats have distinct names, so a name selects at most one format.
pub proof fn format_text_identifies_format(a: OutputFormat, b: OutputFormat)
    ensures
        a.spec_text() == b.spec_text() <==> a == b,
{
    reveal_strlit("TXT");
    reveal_strlit("JSON");
    if a.spec_text() == b.spec_text() {
        assert(a.spec_text().len() == b.spec_text().len());
    }
}

/// Every format occurs exactly once in the list of all formats.
pub proof fn all_formats_listed_once(f: OutputFormat)
    ensures
        OutputFormat::spec_all().contains(f),
        OutputFormat::spec_all().len() == 2,
        OutputFormat::spec_all()[0] != OutputFormat::spec_all()[1],
{
    match f {
        OutputFormat::Txt => assert(OutputFormat::spec_all()[0] == f),
        OutputFormat::Json => assert(OutputFormat::spec_all()[1] == f),
    }
}

} // verus!
