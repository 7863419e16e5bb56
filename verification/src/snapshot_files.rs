//! The file names of stored snapshots: one YAML file per pool, named by the
//! pool's chain, DEX, address and type.
use vstd::prelude::*;
use vstd::string::*;

use crate::abi::hex_text;
use crate::text::{decimal, u64_text};
use crate::types::{Address, PoolIdModel, PoolIdentifier, PoolType, PoolTypeModel};

verus! {

pub open spec fn is_ascii_alphanumeric(c: char) -> bool {
    ('0' <= c <= '9') || ('a' <= c <= 'z') || ('A' <= c <= 'Z')
}

/// Every character that is not an ASCII letter or digit becomes `_`.
pub open spec fn sanitized(s: Seq<char>) -> Seq<char> {
    s.map_values(|c: char| if is_ascii_alphanumeric(c) { c } else { '_' })
}

/// Keeps ASCII letters and digits and writes `_` for anything else.
pub fn sanitize(input: &str) -> (r: String)
    ensures
        r@ == sanitized(input@),
{
    let n = input.unicode_len();
    let mut out = String::new();
    let mut i: usize = 0;
    while i < n
        invariant
            n == input@.len(),
            i <= n,
            out@ == sanitized(input@.subrange(0, i as int)),
        decreases n - i,
    {
        let c = input.get_char(i);
        let ghost before = out@;
        let ghost mapped = if is_ascii_alphanumeric(c) {
            c
        } else {
            '_'
        };
        if ('0' <= c && c <= '9') || ('a' <= c && c <= 'z') || ('A' <= c && c <= 'Z') {
            let one = input.substring_char(i, i + 1);
            assert(one@ =~= seq![c]);
            out.append(one);
        } else {
            proof {
                reveal_strlit("_");
            }
            assert("_"@ =~= seq!['_']);
            out.append("_");
        }
        proof {
            assert(out@ =~= before.push(mapped));
            assert(input@.subrange(0, i + 1) =~= input@.subrange(0, i as int).push(c));
            assert(sanitized(input@.subrange(0, i + 1)) =~= sanitized(input@.subrange(0, i as int)).push(
                mapped,
            ));
        }
        i = i + 1;
    }
    proof {
        assert(input@.subrange(0, n as int) =~= input@);
    }
    out
}

/// The `Debug` text of a string (quoted, with escapes).
pub uninterp spec fn debug_text_spec(s: Seq<char>) -> Seq<char>;

/// The `to_lowercase` text of a string.
pub uninterp spec fn lowercase_spec(s: Seq<char>) -> Seq<char>;

/// `{:?}` of a string: the text in double quotes with Rust's escapes.
#[verifier::external_body]
fn debug_text(s: &str) -> (r: String)
    ensures
        r@ == debug_text_spec(s@),
{
    format!("{:?}", s)
}

/// `str::to_lowercase`: the Unicode lower case of the text.
#[verifier::external_body]
fn lowercase(s: &str) -> (r: String)
    ensures
        r@ == lowercase_spec(s@),
{
    s.to_lowercase()
}

/// The lower-cased `Debug` text of a pool type.
pub open spec fn type_text(t: PoolTypeModel) -> Seq<char> {
    match t {
        PoolTypeModel::PancakeV2 => "pancakev2"@,
        PoolTypeModel::PancakeV3 => "pancakev3"@,
        PoolTypeModel::PancakeV4 => "pancakev4"@,
        PoolTypeModel::UniswapV2 => "uniswapv2"@,
        PoolTypeModel::UniswapV3 => "uniswapv3"@,
        PoolTypeModel::Other(name) => lowercase_spec("Other("@ + debug_text_spec(name) + ")"@),
    }
}

pub fn pool_type_text(t: &PoolType) -> (r: String)
    ensures
        r@ == type_text(t@),
{
    match t {
        PoolType::PancakeV2 => String::from_str("pancakev2"),
        PoolType::PancakeV3 => String::from_str("pancakev3"),
        PoolType::PancakeV4 => String::from_str("pancakev4"),
        PoolType::UniswapV2 => String::from_str("uniswapv2"),
        PoolType::UniswapV3 => String::from_str("uniswapv3"),
        PoolType::Other(name) => {
            let text = String::from_str("Other(").concat(debug_text(name.as_str()).as_str()).concat(")");
            lowercase(text.as_str())
        },
    }
}

/// The ABI hex text of an address: `0x` and the 32-byte word (twelve zero
/// bytes, then the address) in lower-case hexadecimal.
pub open spec fn address_word_hex(a: Seq<u8>) -> Seq<char> {
    "0x"@ + hex_text(Seq::new(12, |i: int| 0u8) + a, false)
}

/// `AbiEncode::encode_hex` of an `ethers` address: the `0x`-prefixed
/// lower-case hex of its ABI word.
#[verifier::external_body]
fn address_abi_hex(a: Address) -> (r: String)
    ensures
        r@ == address_word_hex(a@),
{
    ethers::abi::AbiEncode::encode_hex(ethers::types::Address::from(a.0))
}

/// The file name of a pool's snapshot:
/// `{chain id}_{dex}_{address}_{type}.yaml`, each part sanitised.
pub open spec fn snapshot_file_name_spec(id: PoolIdModel) -> Seq<char> {
    decimal(id.chain_id as nat) + "_"@ + sanitized(id.dex) + "_"@ + sanitized(address_word_hex(id.address))
        + "_"@ + sanitized(type_text(id.pool_type)) + ".yaml"@
}

pub fn snapshot_file_name(id: &PoolIdentifier) -> (r: String)
    ensures
        r@ == snapshot_file_name_spec(id@),
{
    let s = u64_text(id.chain_id).concat("_").concat(sanitize(id.dex.as_str()).as_str());
    let s = s.concat("_").concat(sanitize(address_abi_hex(id.address).as_str()).as_str());
    let s = s.concat("_").concat(sanitize(pool_type_text(&id.pool_type).as_str()).as_str());
    s.concat(".yaml")
}

/// Where file snapshots are kept.
#[derive(Debug, Clone)]
pub struct FileSnapshotStore {
    pub root: String,
}

impl FileSnapshotStore {
    pub fn new(root: String) -> (r: FileSnapshotStore)
        ensures
            r.root == root,
    {
        FileSnapshotStore { root }
    }

    /// The file name, under the root, of a pool's snapshot.
    pub fn snapshot_name(&self, id: &PoolIdentifier) -> (r: String)
        ensures
            r@ == snapshot_file_name_spec(id@),
    {
        snapshot_file_name(id)
    }
    /// The path of a pool's snapshot file: its name joined to the root
    /// directory as a relative path component is joined on Unix (no
    /// separator after an empty root or one that ends with `/`).
    pub fn snapshot_path(&self, id: &PoolIdentifier) -> (r: String)
        ensures
            r@ == joined_path(self.root@, snapshot_file_name_spec(id@)),
    {
        let name = snapshot_file_name(id);
        let n = self.root.as_str().unicode_len();
        if n == 0 {
            name
        } else if self.root.as_str().get_char(n - 1) == '/' {
            self.root.clone().concat(name.as_str())
        } else {
            self.root.clone().concat("/").concat(name.as_str())
        }
    }
}

/// A file name under a directory, as `Path::join` forms it on Unix.
pub open spec fn joined_path(root: Seq<char>, name: Seq<char>) -> Seq<char> {
    if root.len() == 0 {
        name
    } else if root.last() == '/' {
        root + name
    } else {
        root + "/"@ + name
    }
}

} // verus!
