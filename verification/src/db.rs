//! Records of the shader corpus store.
//!
//! The store is a relational database with a schema version. This module
//! decides what is written to it: which statements bring a store of an older
//! version up to date, and what a row of each table holds. Running the
//! statements is left to the caller.

use vstd::prelude::*;
use vstd::string::{StrSliceExecFns, StringExecFns};

verus! {

/// The version of the store that this library works with.
pub const CURR_DB_VERSION: u32 = 1;

/// The pipeline stage a shader belongs to.
#[derive(Debug, Clone, Copy, PartialEq, Eq, Structural, PartialOrd, Ord, Hash)]
pub enum ShaderStage {
    Vertex,
    Fragment,
}

/// The format of stored shader bytes.
#[derive(Debug, Clone, Copy, PartialEq, Eq, Structural, PartialOrd, Ord, Hash)]
pub enum BytesType {
    DXBC,
}

/// The language of a stored disassembly.
#[derive(Debug, Clone, Copy, PartialEq, Eq, Structural, PartialOrd, Ord, Hash)]
pub enum DisasmType {
    AMDIL,
}

/// Whether two strings hold the same text.
fn same_text(a: &str, b: &str) -> (same: bool)
    ensures
        same == (a@ == b@),
{
    let n = a.unicode_len();
    if n != b.unicode_len() {
        return false;
    }
    let mut i: usize = 0;
    while i < n
        invariant
            i <= n,
            n == a@.len(),
            n == b@.len(),
            forall|k: int| 0 <= k < i ==> a@[k] == b@[k],
        decreases n - i,
    {
        if a.get_char(i) != b.get_char(i) {
            return false;
        }
        i = i + 1;
    }
    assert(a@ =~= b@);
    true
}

/// What is said of a name that names nothing: the words `what`, then the
/// name in single quotes.
pub open spec fn invalid_name(what: Seq<char>, name: Seq<char>) -> Seq<char> {
    what + name + "'"@
}

fn invalid(what: &str, name: &str) -> (message: String)
    ensures
        message@ == invalid_name(what@, name@),
{
    let mut message = String::from_str(what);
    message.append(name);
    message.append("'");
    message
}

impl ShaderStage {
    /// The name under which the stage is stored.
    pub open spec fn name(self) -> Seq<char> {
        match self {
            ShaderStage::Vertex => "Vertex"@,
            ShaderStage::Fragment => "Fragment"@,
        }
    }

    /// The stage that a name stands for.
    pub open spec fn named(name: Seq<char>) -> Option<ShaderStage> {
        if name == "Vertex"@ {
            Some(ShaderStage::Vertex)
        } else if name == "Fragment"@ {
            Some(ShaderStage::Fragment)
        } else {
            None
        }
    }

    pub fn to_str(self) -> (s: &'static str)
        ensures
            s@ == self.name(),
    {
        match self {
            ShaderStage::Vertex => "Vertex",
            ShaderStage::Fragment => "Fragment",
        }
    }

    /// The stage of the given name, or a message that names the input.
    pub fn try_from(value: &str) -> (r: Result<ShaderStage, String>)
        ensures
            match r {
                Ok(stage) => ShaderStage::named(value@) == Some(stage),
                Err(message) => ShaderStage::named(value@) is None && message@ == invalid_name(
                    "Invalid ShaderStage '"@,
                    value@,
                ),
            },
    {
        if same_text(value, "Vertex") {
            Ok(ShaderStage::Vertex)
        } else if same_text(value, "Fragment") {
            Ok(ShaderStage::Fragment)
        } else {
            Err(invalid("Invalid ShaderStage '", value))
        }
    }

    /// Every stage is the stage that its name stands for.
    pub proof fn lemma_name_round_trip(self)
        ensures
            ShaderStage::named(self.name()) == Some(self),
    {
        reveal_strlit("Vertex");
        reveal_strlit("Fragment");
        assert("Vertex"@.len() == 6);
        assert("Fragment"@.len() == 8);
    }
}

impl BytesType {
    /// The name under which the format is stored.
    pub open spec fn name(self) -> Seq<char> {
        "DXBC"@
    }

    /// The format that a name stands for.
    pub open spec fn named(name: Seq<char>) -> Option<BytesType> {
        if name == "DXBC"@ {
            Some(BytesType::DXBC)
        } else {
            None
        }
    }

    pub fn to_str(self) -> (s: &'static str)
        ensures
            s@ == self.name(),
    {
        "DXBC"
    }

    /// The format of the given name, or a message that names the input.
    pub fn try_from(value: &str) -> (r: Result<BytesType, String>)
        ensures
            match r {
                Ok(kind) => BytesType::named(value@) == Some(kind),
                Err(message) => BytesType::named(value@) is None && message@ == invalid_name(
                    "Invalid BytesType '"@,
                    value@,
                ),
            },
    {
        if same_text(value, "DXBC") {
            Ok(BytesType::DXBC)
        } else {
            Err(invalid("Invalid BytesType '", value))
        }
    }
}

impl DisasmType {
    /// The name under which the language is stored.
    pub open spec fn name(self) -> Seq<char> {
        "AMDIL"@
    }

    /// The language that a name stands for.
    pub open spec fn named(name: Seq<char>) -> Option<DisasmType> {
        if name == "AMDIL"@ {
            Some(DisasmType::AMDIL)
        } else {
            None
        }
    }

    pub fn to_str(self) -> (s: &'static str)
        ensures
            s@ == self.name(),
    {
        "AMDIL"
    }

    /// The language of the given name, or a message that names the input.
    pub fn try_from(value: &str) -> (r: Result<DisasmType, String>)
        ensures
            match r {
                Ok(kind) => DisasmType::named(value@) == Some(kind),
                Err(message) => DisasmType::named(value@) is None && message@ == invalid_name(
                    "Invalid DisasmType '"@,
                    value@,
                ),
            },
    {
        if same_text(value, "AMDIL") {
            Ok(DisasmType::AMDIL)
        } else {
            Err(invalid("Invalid DisasmType '", value))
        }
    }
}

impl From<ShaderStage> for &'static str {
    fn from(value: ShaderStage) -> (s: &'static str) {
        match value {
            ShaderStage::Vertex => "Vertex",
            ShaderStage::Fragment => "Fragment",
        }
    }
}

impl vstd::std_specs::convert::FromSpecImpl<ShaderStage> for &'static str {
    open spec fn obeys_from_spec() -> bool {
        true
    }

    open spec fn from_spec(value: ShaderStage) -> &'static str {
        match value {
            ShaderStage::Vertex => "Vertex",
            ShaderStage::Fragment => "Fragment",
        }
    }
}

impl From<BytesType> for &'static str {
    fn from(value: BytesType) -> (s: &'static str) {
        "DXBC"
    }
}

impl vstd::std_specs::convert::FromSpecImpl<BytesType> for &'static str {
    open spec fn obeys_from_spec() -> bool {
        true
    }

    open spec fn from_spec(value: BytesType) -> &'static str {
        "DXBC"
    }
}

impl From<DisasmType> for &'static str {
    fn from(value: DisasmType) -> (s: &'static str) {
        "AMDIL"
    }
}

impl vstd::std_specs::convert::FromSpecImpl<DisasmType> for &'static str {
    open spec fn obeys_from_spec() -> bool {
        true
    }

    open spec fn from_spec(value: DisasmType) -> &'static str {
        "AMDIL"
    }
}

/// The statement that creates the table of shader bytes.
pub const CREATE_SHADER_BYTES: &'static str =
    "CREATE TABLE ShaderBytes (Category TEXT NOT NULL, ShaderName TEXT NOT NULL, ShaderStage TEXT NOT NULL, BytesType TEXT NOT NULL, Bytes BLOB NOT NULL, SHA256 BLOB NOT NULL)";

/// The statement that creates the table of disassemblies.
pub const CREATE_SHADER_DISASM: &'static str =
    "CREATE TABLE ShaderDisasm (Category TEXT NOT NULL, ShaderName TEXT NOT NULL, ShaderStage TEXT NOT NULL, DisasmType TEXT NOT NULL, Disasm TEXT NOT NULL)";

/// The statement that stores a row of shader bytes.
pub const INSERT_SHADER_BYTES: &'static str =
    "INSERT INTO ShaderBytes (Category, ShaderName, ShaderStage, BytesType, Bytes, SHA256) VALUES (?1, ?2, ?3, ?4, ?5, ?6)";

/// The statement that stores a row of disassembly.
pub const INSERT_SHADER_DISASM: &'static str =
    "INSERT INTO ShaderDisasm (Category, ShaderName, ShaderStage, DisasmType, Disasm) VALUES (?1, ?2, ?3, ?4, ?5)";

/// One step that brings a store from one version to the next. Its
/// statements and the change of the version belong in one transaction.
#[derive(Debug, Clone, PartialEq, Eq)]
pub struct Migration {
    pub statements: Vec<&'static str>,
    pub new_version: u32,
}

/// The statements that bring a store to `version` from the version before.
pub open spec fn migration_statements(version: u32) -> Seq<&'static str> {
    if version == 1 {
        seq![CREATE_SHADER_BYTES, CREATE_SHADER_DISASM]
    } else {
        Seq::empty()
    }
}

/// The schema version of a store, as the library has followed it.
#[derive(Debug, Clone, Copy, PartialEq, Eq)]
pub struct ShaderDb {
    version: u32,
}

/// A row of the table of shader bytes.
#[derive(Debug, Clone, PartialEq, Eq)]
pub struct ShaderBytesRow<'a> {
    pub category: &'a str,
    pub shader_name: &'a str,
    pub shader_stage: &'static str,
    pub bytes_type: &'static str,
    pub bytes: &'a [u8],
    pub sha256: Vec<u8>,
}

/// A row of the table of disassemblies.
#[derive(Debug, Clone, Copy, PartialEq, Eq)]
pub struct ShaderDisasmRow<'a> {
    pub category: &'a str,
    pub shader_name: &'a str,
    pub shader_stage: &'static str,
    pub disasm_type: &'static str,
    pub disasm: &'a str,
}

/// The SHA-256 digest of some bytes.
pub uninterp spec fn sha256(data: Seq<u8>) -> Seq<u8>;

/// No more bytes than this can be digested.
pub const MAX_DIGEST_INPUT: u64 = 0x1fff_ffff_ffff_ffff;

/// Calls `ring::digest::digest` with `ring::digest::SHA256` and copies the
/// digest out. The contract claims that the result is the SHA-256 digest of
/// the input, a function of the input alone, and that it is 32 bytes long.
/// The outside function panics on an input whose length in bits does not
/// fit in 64 bits; `requires` leaves such input out.
#[verifier::external_body]
fn sha256_digest(data: &[u8]) -> (digest: Vec<u8>)
    requires
        data@.len() <= MAX_DIGEST_INPUT,
    ensures
        digest@ == sha256(data@),
        digest@.len() == 32,
{
    ring::digest::digest(&ring::digest::SHA256, data).as_ref().to_vec()
}

impl<'a> ShaderBytesRow<'a> {
    /// The row for some bytes and their digest.
    pub fn new(
        category: &'a str,
        shader_name: &'a str,
        shader_stage: ShaderStage,
        bytes_type: BytesType,
        bytes: &'a [u8],
        sha256: Vec<u8>,
    ) -> (row: ShaderBytesRow<'a>)
        ensures
            row.category@ == category@,
            row.shader_name@ == shader_name@,
            row.shader_stage@ == shader_stage.name(),
            row.bytes_type@ == bytes_type.name(),
            row.bytes@ == bytes@,
            row.sha256@ == sha256@,
    {
        ShaderBytesRow {
            category,
            shader_name,
            shader_stage: shader_stage.to_str(),
            bytes_type: bytes_type.to_str(),
            bytes,
            sha256,
        }
    }
}

impl ShaderDb {
    /// The store is of no later version than this library works with.
    #[verifier::type_invariant]
    spec fn well_formed(self) -> bool {
        self.version <= CURR_DB_VERSION
    }

    /// The version that the store has.
    pub closed spec fn spec_version(&self) -> u32 {
        self.version
    }

    /// The version that the store has.
    #[verifier::when_used_as_spec(spec_version)]
    pub fn version(&self) -> (v: u32)
        ensures
            v == self.spec_version(),
            v <= CURR_DB_VERSION,
    {
        proof {
            use_type_invariant(self);
        }
        self.version
    }

    /// A store whose file holds the given version. A file of a later
    /// version than this library works with cannot be used.
    pub fn from_file(user_version: u32) -> (db: ShaderDb)
        requires
            user_version <= CURR_DB_VERSION,
        ensures
            db.version() == user_version,
    {
        ShaderDb { version: user_version }
    }

    /// The next step towards the current version; none where the store is
    /// up to date.
    pub fn migrate(&self) -> (step: Option<Migration>)
        ensures
            step is Some <==> self.version() < CURR_DB_VERSION,
            step matches Some(m) ==> m.new_version == self.version() + 1 && m.statements@
                == migration_statements(m.new_version),
    {
        if self.version == 0 {
            let mut statements: Vec<&'static str> = Vec::new();
            statements.push(CREATE_SHADER_BYTES);
            statements.push(CREATE_SHADER_DISASM);
            assert(statements@ =~= migration_statements(1));
            Some(Migration { statements, new_version: 1 })
        } else {
            None
        }
    }

    /// Records that a step of migration was carried out.
    pub fn push_version(&mut self, new_version: u32)
        requires
            old(self).version() < CURR_DB_VERSION,
            new_version == old(self).version() + 1,
        ensures
            final(self).version() == new_version,
    {
        self.version = new_version;
    }

    /// The row that stores some shader bytes, with their SHA-256 digest.
    pub fn insert_bytes<'a>(
        &self,
        category: &'a str,
        shader_name: &'a str,
        shader_stage: ShaderStage,
        bytes_type: BytesType,
        bytes: &'a [u8],
    ) -> (row: ShaderBytesRow<'a>)
        requires
            self.version() == CURR_DB_VERSION,
            bytes@.len() <= MAX_DIGEST_INPUT,
        ensures
            row.category@ == category@,
            row.shader_name@ == shader_name@,
            row.shader_stage@ == shader_stage.name(),
            row.bytes_type@ == bytes_type.name(),
            row.bytes@ == bytes@,
            row.sha256@ == sha256(bytes@),
            row.sha256@.len() == 32,
    {
        let digest = sha256_digest(bytes);
        ShaderBytesRow::new(category, shader_name, shader_stage, bytes_type, bytes, digest)
    }

    /// The row that stores a disassembly.
    pub fn insert_disasm<'a>(
        &self,
        category: &'a str,
        shader_name: &'a str,
        shader_stage: ShaderStage,
        disasm_type: DisasmType,
        disasm: &'a str,
    ) -> (row: ShaderDisasmRow<'a>)
        requires
            self.version() == CURR_DB_VERSION,
        ensures
            row.category@ == category@,
            row.shader_name@ == shader_name@,
            row.shader_stage@ == shader_stage.name(),
            row.disasm_type@ == disasm_type.name(),
            row.disasm@ == disasm@,
    {
        ShaderDisasmRow {
            category,
            shader_name,
            shader_stage: shader_stage.to_str(),
            disasm_type: disasm_type.to_str(),
            disasm,
        }
    }
}

} // verus!
