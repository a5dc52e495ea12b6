//! Plain form-state values: the text a user edits for scripts and keys, the
//! display-format selectors, and their string names. These hold only plain
//! data; rendering and event handling live outside the library.

use vstd::prelude::*;
use vstd::string::StrSliceExecFns;

use crate::address::Network;
use crate::token::NftCapability;

verus! {

/// An enumeration with stable string names, as used in form selectors: each
/// value's name is fixed by `spec_str`, `to_str` returns exactly it, and
/// `from_str` inverts it — `Some` only for a value's own name, `None` only
/// when no value's name matches.
pub trait StrEnum: Sized {
    /// The stable name of this value.
    spec fn spec_str(self) -> Seq<char>;

    fn to_str(self) -> (r: &'static str)
        ensures
            r@ == self.spec_str(),
    ;

    fn from_str(s: &str) -> (r: Option<Self>)
        ensures
            r matches Some(v) ==> s@ == v.spec_str(),
            r is None ==> forall|v: Self| s@ != v.spec_str(),
    ;
}

/// Character-for-character string equality.
fn str_eq(a: &str, b: &str) -> (r: bool)
    ensures
        r == (a@ == b@),
{
    let alen = a.unicode_len();
    let blen = b.unicode_len();
    if alen != blen {
        return false;
    }
    let mut i: usize = 0;
    while i < alen
        invariant
            i <= alen,
            alen == a@.len(),
            alen == b@.len(),
            forall|j: int| 0 <= j < i ==> a@[j] == b@[j],
        decreases alen - i,
    {
        if a.get_char(i) != b.get_char(i) {
            return false;
        }
        i = i + 1;
    }
    proof {
        assert(a@ =~= b@);
    }
    true
}

/// How a script field is displayed: as an address, as assembly, or as hex.
#[derive(Clone, Copy, Debug, PartialEq, Eq, Structural)]
pub enum ScriptDisplayFormat {
    Addr,
    Asm,
    Hex,
}

impl StrEnum for ScriptDisplayFormat {
    open spec fn spec_str(self) -> Seq<char> {
        match self {
            ScriptDisplayFormat::Addr => "addr"@,
            ScriptDisplayFormat::Asm => "asm"@,
            ScriptDisplayFormat::Hex => "hex"@,
        }
    }

    fn to_str(self) -> &'static str {
        proof {
            reveal_strlit("addr");
            reveal_strlit("asm");
            reveal_strlit("hex");
        }
        match self {
            ScriptDisplayFormat::Addr => "addr",
            ScriptDisplayFormat::Asm => "asm",
            ScriptDisplayFormat::Hex => "hex",
        }
    }

    fn from_str(s: &str) -> Option<Self> {
        proof {
            reveal_strlit("addr");
            reveal_strlit("asm");
            reveal_strlit("hex");
        }
        if str_eq(s, "addr") {
            Some(ScriptDisplayFormat::Addr)
        } else if str_eq(s, "asm") {
            Some(ScriptDisplayFormat::Asm)
        } else if str_eq(s, "hex") {
            Some(ScriptDisplayFormat::Hex)
        } else {
            None
        }
    }
}

/// How the spent-output key field is displayed.
#[derive(Clone, Copy, Debug, PartialEq, Eq, Structural)]
pub enum PubkeyDisplayFormat {
    Addr,
    Asm,
    Hex,
}

impl Default for PubkeyDisplayFormat {
    fn default() -> (r: Self)
        ensures
            r == PubkeyDisplayFormat::Addr,
    {
        PubkeyDisplayFormat::Addr
    }
}

impl StrEnum for PubkeyDisplayFormat {
    open spec fn spec_str(self) -> Seq<char> {
        match self {
            PubkeyDisplayFormat::Addr => "addr"@,
            PubkeyDisplayFormat::Asm => "asm"@,
            PubkeyDisplayFormat::Hex => "hex"@,
        }
    }

    fn to_str(self) -> &'static str {
        proof {
            reveal_strlit("addr");
            reveal_strlit("asm");
            reveal_strlit("hex");
        }
        match self {
            PubkeyDisplayFormat::Addr => "addr",
            PubkeyDisplayFormat::Asm => "asm",
            PubkeyDisplayFormat::Hex => "hex",
        }
    }

    fn from_str(s: &str) -> Option<Self> {
        proof {
            reveal_strlit("addr");
            reveal_strlit("asm");
            reveal_strlit("hex");
        }
        if str_eq(s, "addr") {
            Some(PubkeyDisplayFormat::Addr)
        } else if str_eq(s, "asm") {
            Some(PubkeyDisplayFormat::Asm)
        } else if str_eq(s, "hex") {
            Some(PubkeyDisplayFormat::Hex)
        } else {
            None
        }
    }
}

/// How a non-fungible commitment is edited: as hex or as plain text.
#[derive(Clone, Copy, Debug, PartialEq, Eq, Structural)]
pub enum NftCommitmentFormat {
    Hex,
    Plaintext,
}

impl Default for NftCommitmentFormat {
    fn default() -> (r: Self)
        ensures
            r == NftCommitmentFormat::Hex,
    {
        NftCommitmentFormat::Hex
    }
}

impl StrEnum for NftCommitmentFormat {
    open spec fn spec_str(self) -> Seq<char> {
        match self {
            NftCommitmentFormat::Hex => "hex"@,
            NftCommitmentFormat::Plaintext => "plaintext"@,
        }
    }

    fn to_str(self) -> &'static str {
        proof {
            reveal_strlit("hex");
            reveal_strlit("plaintext");
        }
        match self {
            NftCommitmentFormat::Hex => "hex",
            NftCommitmentFormat::Plaintext => "plaintext",
        }
    }

    fn from_str(s: &str) -> Option<Self> {
        proof {
            reveal_strlit("hex");
            reveal_strlit("plaintext");
        }
        if str_eq(s, "hex") {
            Some(NftCommitmentFormat::Hex)
        } else if str_eq(s, "plaintext") {
            Some(NftCommitmentFormat::Plaintext)
        } else {
            None
        }
    }
}

impl StrEnum for NftCapability {
    open spec fn spec_str(self) -> Seq<char> {
        match self {
            NftCapability::Immutable => "immutable"@,
            NftCapability::Mutable => "mutable"@,
            NftCapability::Minting => "minting"@,
        }
    }

    fn to_str(self) -> &'static str {
        proof {
            reveal_strlit("immutable");
            reveal_strlit("mutable");
            reveal_strlit("minting");
        }
        match self {
            NftCapability::Immutable => "immutable",
            NftCapability::Mutable => "mutable",
            NftCapability::Minting => "minting",
        }
    }

    fn from_str(s: &str) -> Option<Self> {
        proof {
            reveal_strlit("immutable");
            reveal_strlit("mutable");
            reveal_strlit("minting");
        }
        if str_eq(s, "immutable") {
            Some(NftCapability::Immutable)
        } else if str_eq(s, "mutable") {
            Some(NftCapability::Mutable)
        } else if str_eq(s, "minting") {
            Some(NftCapability::Minting)
        } else {
            None
        }
    }
}

impl StrEnum for Network {
    open spec fn spec_str(self) -> Seq<char> {
        match self {
            Network::Bitcoin => "mainnet"@,
            Network::Testnet => "testnet3"@,
            Network::Regtest => "regtest"@,
            Network::Testnet4 => "testnet4"@,
            Network::Scalenet => "scalenet"@,
            Network::Chipnet => "chipnet"@,
        }
    }

    fn to_str(self) -> &'static str {
        proof {
            reveal_strlit("mainnet");
            reveal_strlit("testnet3");
            reveal_strlit("regtest");
            reveal_strlit("testnet4");
            reveal_strlit("scalenet");
            reveal_strlit("chipnet");
        }
        match self {
            Network::Bitcoin => "mainnet",
            Network::Testnet => "testnet3",
            Network::Regtest => "regtest",
            Network::Testnet4 => "testnet4",
            Network::Scalenet => "scalenet",
            Network::Chipnet => "chipnet",
        }
    }

    fn from_str(s: &str) -> Option<Self> {
        proof {
            reveal_strlit("mainnet");
            reveal_strlit("testnet3");
            reveal_strlit("regtest");
            reveal_strlit("testnet4");
            reveal_strlit("scalenet");
            reveal_strlit("chipnet");
        }
        if str_eq(s, "mainnet") {
            Some(Network::Bitcoin)
        } else if str_eq(s, "testnet3") {
            Some(Network::Testnet)
        } else if str_eq(s, "regtest") {
            Some(Network::Regtest)
        } else if str_eq(s, "testnet4") {
            Some(Network::Testnet4)
        } else if str_eq(s, "scalenet") {
            Some(Network::Scalenet)
        } else if str_eq(s, "chipnet") {
            Some(Network::Chipnet)
        } else {
            None
        }
    }
}

/// The text of a script field together with the format it was entered in.
#[derive(Clone, Debug, PartialEq, Eq)]
pub enum ScriptInputValue {
    Hex(String),
    Addr(String),
    Asm(String),
}

impl ScriptInputValue {
    /// The entered text, whatever its format.
    pub open spec fn spec_inner(self) -> Seq<char> {
        match self {
            ScriptInputValue::Hex(s) => s@,
            ScriptInputValue::Addr(s) => s@,
            ScriptInputValue::Asm(s) => s@,
        }
    }

    pub fn is_empty(&self) -> (r: bool)
        ensures
            r == (self.spec_inner().len() == 0),
    {
        self.inner().as_str().is_empty()
    }

    /// The format the value was entered in.
    pub fn format(&self) -> (r: ScriptDisplayFormat)
        ensures
            r == (match self {
                ScriptInputValue::Hex(_) => ScriptDisplayFormat::Hex,
                ScriptInputValue::Addr(_) => ScriptDisplayFormat::Addr,
                ScriptInputValue::Asm(_) => ScriptDisplayFormat::Asm,
            }),
    {
        match self {
            ScriptInputValue::Hex(_) => ScriptDisplayFormat::Hex,
            ScriptInputValue::Addr(_) => ScriptDisplayFormat::Addr,
            ScriptInputValue::Asm(_) => ScriptDisplayFormat::Asm,
        }
    }

    pub fn inner(&self) -> (r: &String)
        ensures
            r@ == self.spec_inner(),
    {
        match self {
            ScriptInputValue::Hex(s) => s,
            ScriptInputValue::Addr(s) => s,
            ScriptInputValue::Asm(s) => s,
        }
    }

    /// Mutable access to the entered text; the format stays.
    pub fn inner_mut(&mut self) -> (r: &mut String)
        ensures
            (*r)@ == old(self).spec_inner(),
            final(self).spec_inner() == (*final(r))@,
            final(self).format_of() == old(self).format_of(),
    {
        match self {
            ScriptInputValue::Hex(s) => s,
            ScriptInputValue::Addr(s) => s,
            ScriptInputValue::Asm(s) => s,
        }
    }

    /// The format as a specification-level value.
    pub open spec fn format_of(self) -> ScriptDisplayFormat {
        match self {
            ScriptInputValue::Hex(_) => ScriptDisplayFormat::Hex,
            ScriptInputValue::Addr(_) => ScriptDisplayFormat::Addr,
            ScriptInputValue::Asm(_) => ScriptDisplayFormat::Asm,
        }
    }

    /// Empties the entered text, keeping the format.
    pub fn clear(&mut self)
        ensures
            final(self).spec_inner().len() == 0,
            final(self).format_of() == old(self).format_of(),
    {
        let inner = self.inner_mut();
        *inner = String::new();
    }
}

impl Default for ScriptInputValue {
    fn default() -> (r: Self)
        ensures
            r matches ScriptInputValue::Hex(s) && s@.len() == 0,
    {
        ScriptInputValue::Hex(String::new())
    }
}

/// The text a user supplied for the spent output's key or address.
#[derive(Clone, Debug, PartialEq, Eq)]
pub enum UtxoPubkeyData {
    Hex(String),
    Addr(String),
}

impl Default for UtxoPubkeyData {
    fn default() -> (r: Self)
        ensures
            r matches UtxoPubkeyData::Hex(s) && s@.len() == 0,
    {
        UtxoPubkeyData::Hex(String::new())
    }
}

impl UtxoPubkeyData {
    pub open spec fn spec_inner(self) -> Seq<char> {
        match self {
            UtxoPubkeyData::Hex(s) => s@,
            UtxoPubkeyData::Addr(s) => s@,
        }
    }

    /// Usable as hex: already hex, or an empty address field.
    pub fn empty_or_hex(&self) -> (r: bool)
        ensures
            r == (match self {
                UtxoPubkeyData::Hex(_) => true,
                UtxoPubkeyData::Addr(s) => s@.len() == 0,
            }),
    {
        match self {
            UtxoPubkeyData::Hex(_) => true,
            UtxoPubkeyData::Addr(s) => s.as_str().is_empty(),
        }
    }

    /// Usable as an address: already an address, or an empty hex field.
    pub fn empty_or_addr(&self) -> (r: bool)
        ensures
            r == (match self {
                UtxoPubkeyData::Addr(_) => true,
                UtxoPubkeyData::Hex(s) => s@.len() == 0,
            }),
    {
        match self {
            UtxoPubkeyData::Addr(_) => true,
            UtxoPubkeyData::Hex(s) => s.as_str().is_empty(),
        }
    }

    /// The entered text, whatever its kind.
    pub fn inner(self) -> (r: String)
        ensures
            r@ == self.spec_inner(),
    {
        match self {
            UtxoPubkeyData::Addr(s) => s,
            UtxoPubkeyData::Hex(s) => s,
        }
    }
}

/// A numbered handle for one form row.
pub struct Tracker {
    id: usize,
}

impl Tracker {
    pub fn new(id: usize) -> (r: Self)
        ensures
            r.spec_id() == id,
    {
        Tracker { id }
    }

    pub closed spec fn spec_id(self) -> usize {
        self.id
    }
}

} // verus!
