//! Pool identifiers as text (`chain:dex:address:type`), the sample pool,
//! and address lists read from text.
use vstd::prelude::*;
use vstd::string::*;

use crate::abi::{address_bytes, address_parses, address_text, format_address, parse_address};
use crate::text::{decimal, digit_char, same_text, u64_text};
use crate::types::{
    pool_type_label_spec, Address, Asset, AssetModel, ChainNamespace, ChainNamespaceModel,
    PoolIdModel, PoolIdentifier, PoolType, PoolTypeModel,
};

verus! {

/// The pieces of a text between the separators, as `str::split` gives
/// them (an empty text is one empty piece).
pub open spec fn split_on(s: Seq<char>, sep: char) -> Seq<Seq<char>>
    decreases s.len(),
{
    if s.len() == 0 {
        seq![Seq::<char>::empty()]
    } else {
        let rest = split_on(s.drop_last(), sep);
        if s.last() == sep {
            rest.push(Seq::<char>::empty())
        } else {
            rest.update(rest.len() - 1, rest.last().push(s.last()))
        }
    }
}

proof fn lemma_split_nonempty(s: Seq<char>, sep: char)
    ensures
        split_on(s, sep).len() >= 1,
    decreases s.len(),
{
    if s.len() > 0 {
        lemma_split_nonempty(s.drop_last(), sep);
    }
}

/// The number a run of decimal digits stands for.
pub open spec fn digits_value(s: Seq<char>) -> nat
    decreases s.len(),
{
    if s.len() == 0 {
        0
    } else {
        digits_value(s.drop_last()) * 10 + (s.last() as nat - 48) as nat
    }
}

pub open spec fn all_digits(s: Seq<char>) -> bool {
    forall|i: int| 0 <= i < s.len() ==> '0' <= #[trigger] s[i] <= '9'
}

/// What `u64::from_str` reads: an optional `+` and at least one decimal
/// digit, with a value that fits.
pub open spec fn u64_from_text(s: Seq<char>) -> Option<u64> {
    let d = if s.len() > 0 && s[0] == '+' {
        s.subrange(1, s.len() as int)
    } else {
        s
    };
    if d.len() > 0 && all_digits(d) && digits_value(d) <= u64::MAX {
        Some(digits_value(d) as u64)
    } else {
        None
    }
}

/// Reads a `u64` as `str::parse` does.
pub fn parse_u64(s: &str) -> (r: Option<u64>)
    ensures
        r == u64_from_text(s@),
{
    let n = s.unicode_len();
    let mut i: usize = 0;
    if n > 0 && s.get_char(0) == '+' {
        i = 1;
    }
    let ghost d = if s@.len() > 0 && s@[0] == '+' {
        s@.subrange(1, s@.len() as int)
    } else {
        s@
    };
    let start = i;
    if start == n {
        return None;
    }
    let mut value: u64 = 0;
    assert(s@.subrange(start as int, start as int) =~= Seq::<char>::empty());
    while i < n
        invariant
            n == s@.len(),
            start <= i <= n,
            start < n,
            d == s@.subrange(start as int, n as int),
            d == (if s@.len() > 0 && s@[0] == '+' {
                s@.subrange(1, s@.len() as int)
            } else {
                s@
            }),
            all_digits(s@.subrange(start as int, i as int)),
            value == digits_value(s@.subrange(start as int, i as int)),
        decreases n - i,
    {
        let c = s.get_char(i);
        let ghost prefix = s@.subrange(start as int, i as int);
        let ghost next = s@.subrange(start as int, i + 1);
        assert(next.drop_last() =~= prefix);
        if !('0' <= c && c <= '9') {
            proof {
                assert(d[i - start] == c);
                assert(!all_digits(d));
            }
            return None;
        }
        let digit = (c as u32 - 48) as u64;
        let tens = match value.checked_mul(10) {
            Some(v) => v,
            None => {
                proof {
                    if all_digits(d) {
                        lemma_digits_prefix_bound(d, (i - start) as int);
                        assert(d.subrange(0, (i - start) as int) =~= prefix);
                    }
                }
                return None;
            },
        };
        value = match tens.checked_add(digit) {
            Some(v) => v,
            None => {
                proof {
                    if all_digits(d) {
                        lemma_digits_prefix_bound(d, (i + 1 - start) as int);
                        assert(d.subrange(0, (i + 1 - start) as int) =~= next);
                    }
                }
                return None;
            },
        };
        i = i + 1;
        proof {
            assert(all_digits(next));
        }
    }
    proof {
        assert(s@.subrange(start as int, n as int) =~= d);
    }
    Some(value)
}

/// A prefix of a run of digits has no larger value.
proof fn lemma_digits_prefix_bound(d: Seq<char>, k: int)
    requires
        0 <= k <= d.len(),
        all_digits(d),
    ensures
        digits_value(d.subrange(0, k)) <= digits_value(d),
        k < d.len() ==> digits_value(d.subrange(0, k)) * 10 <= digits_value(d),
    decreases d.len() - k,
{
    if k < d.len() {
        lemma_digits_prefix_bound(d, k + 1);
        let p = d.subrange(0, k + 1);
        assert(p.drop_last() =~= d.subrange(0, k));
        assert('0' <= d[k] <= '9');
    } else {
        assert(d.subrange(0, k) =~= d);
    }
}

/// The pool type a label names; unknown labels name `Other`.
pub open spec fn pool_type_of(label: Seq<char>) -> PoolTypeModel {
    if label == "pancake_v2"@ {
        PoolTypeModel::PancakeV2
    } else if label == "pancake_v3"@ {
        PoolTypeModel::PancakeV3
    } else if label == "pancake_v4"@ {
        PoolTypeModel::PancakeV4
    } else if label == "uniswap_v2"@ {
        PoolTypeModel::UniswapV2
    } else if label == "uniswap_v3"@ {
        PoolTypeModel::UniswapV3
    } else {
        PoolTypeModel::Other(label)
    }
}

/// The identifier a `chain:dex:address:type` text stands for: four pieces,
/// a `u64` chain id and a readable address; an empty DEX name takes the
/// type's label.
pub open spec fn pool_id_from_text(s: Seq<char>) -> Option<PoolIdModel> {
    let parts = split_on(s, ':');
    if parts.len() != 4 {
        None
    } else {
        match u64_from_text(parts[0]) {
            None => None,
            Some(chain_id) => if !address_parses(parts[2]) {
                None
            } else {
                let t = pool_type_of(parts[3]);
                Some(
                    PoolIdModel {
                        chain_namespace: ChainNamespaceModel::Evm,
                        chain_id,
                        dex: if parts[1].len() == 0 {
                            pool_type_label_spec(t)
                        } else {
                            parts[1]
                        },
                        address: address_bytes(parts[2]),
                        pool_type: t,
                    },
                )
            },
        }
    }
}

/// The pieces of a text between separators.
pub fn split_text(s: &str, sep: char) -> (r: Vec<String>)
    ensures
        r@.map_values(|p: String| p@) == split_on(s@, sep),
{
    let n = s.unicode_len();
    let mut parts: Vec<String> = Vec::new();
    let mut start: usize = 0;
    let mut i: usize = 0;
    proof {
        assert(s@.subrange(0, 0) =~= Seq::<char>::empty());
    }
    while i < n
        invariant
            n == s@.len(),
            start <= i <= n,
            parts@.map_values(|p: String| p@).push(s@.subrange(start as int, i as int)) == split_on(
                s@.subrange(0, i as int),
                sep,
            ),
        decreases n - i,
    {
        let c = s.get_char(i);
        let ghost before = parts@.map_values(|p: String| p@);
        let ghost cur = s@.subrange(start as int, i as int);
        let ghost pre = s@.subrange(0, i as int);
        let ghost pre1 = s@.subrange(0, i + 1);
        proof {
            assert(pre1.drop_last() =~= pre);
            assert(pre1.last() == c);
            lemma_split_nonempty(pre, sep);
        }
        if c == sep {
            let piece = s.substring_char(start, i);
            parts.push(String::from_str(piece));
            start = i + 1;
            proof {
                assert(parts@.map_values(|p: String| p@) =~= before.push(cur));
                assert(s@.subrange(start as int, i + 1) =~= Seq::<char>::empty());
                assert(parts@.map_values(|p: String| p@).push(Seq::<char>::empty()) =~= before.push(
                    cur,
                ).push(Seq::<char>::empty()));
            }
        } else {
            proof {
                let full = before.push(cur);
                assert(s@.subrange(start as int, i + 1) =~= cur.push(c));
                assert(full.update(full.len() - 1, full.last().push(c)) =~= before.push(cur.push(c)));
            }
        }
        i = i + 1;
    }
    let last = s.substring_char(start, n);
    let ghost before = parts@.map_values(|p: String| p@);
    parts.push(String::from_str(last));
    proof {
        assert(s@.subrange(0, n as int) =~= s@);
        assert(parts@.map_values(|p: String| p@) =~= before.push(s@.subrange(start as int, n as int)));
    }
    parts
}

/// The pool type a label names.
pub fn pool_type_from_label(label: &str) -> (r: PoolType)
    ensures
        r@ == pool_type_of(label@),
{
    if same_text(label, "pancake_v2") {
        PoolType::PancakeV2
    } else if same_text(label, "pancake_v3") {
        PoolType::PancakeV3
    } else if same_text(label, "pancake_v4") {
        PoolType::PancakeV4
    } else if same_text(label, "uniswap_v2") {
        PoolType::UniswapV2
    } else if same_text(label, "uniswap_v3") {
        PoolType::UniswapV3
    } else {
        PoolType::Other(String::from_str(label))
    }
}

/// Reads a `chain:dex:address:type` pool identifier.
pub fn parse_pool_identifier(input: &str) -> (r: Option<PoolIdentifier>)
    ensures
        match r {
            Some(id) => pool_id_from_text(input@) == Some(id@),
            None => pool_id_from_text(input@) is None,
        },
{
    let parts = split_text(input, ':');
    let ghost ps = parts@.map_values(|p: String| p@);
    if parts.len() != 4 {
        return None;
    }
    proof {
        assert(ps[0] == parts@[0]@ && ps[1] == parts@[1]@ && ps[2] == parts@[2]@ && ps[3]
            == parts@[3]@);
    }
    let chain_id = match parse_u64(parts[0].as_str()) {
        Some(v) => v,
        None => return None,
    };
    let address = match parse_address(parts[2].as_str()) {
        Ok(a) => a,
        Err(_) => return None,
    };
    let pool_type = pool_type_from_label(parts[3].as_str());
    let dex = if parts[1].as_str().unicode_len() == 0 {
        pool_type.label()
    } else {
        parts[1].clone()
    };
    Some(PoolIdentifier { chain_namespace: ChainNamespace::Evm, chain_id, dex, address, pool_type })
}

/// The short label of a pool type; every `Other` type is `other`.
pub open spec fn short_label(t: PoolTypeModel) -> Seq<char> {
    match t {
        PoolTypeModel::Other(_) => "other"@,
        _ => pool_type_label_spec(t),
    }
}

pub fn pool_type_label(pool_type: &PoolType) -> (r: &'static str)
    ensures
        r@ == short_label(pool_type@),
{
    match pool_type {
        PoolType::PancakeV2 => "pancake_v2",
        PoolType::PancakeV3 => "pancake_v3",
        PoolType::PancakeV4 => "pancake_v4",
        PoolType::UniswapV2 => "uniswap_v2",
        PoolType::UniswapV3 => "uniswap_v3",
        PoolType::Other(_) => "other",
    }
}

/// The text of an identifier: chain id, DEX name, address and short type
/// label, separated by `:`.
pub open spec fn identifier_text(id: PoolIdModel) -> Seq<char> {
    decimal(id.chain_id as nat) + ":"@ + id.dex + ":"@ + address_text(id.address) + ":"@ + short_label(
        id.pool_type,
    )
}

pub fn format_identifier(id: &PoolIdentifier) -> (r: String)
    ensures
        r@ == identifier_text(id@),
{
    let s = u64_text(id.chain_id).concat(":").concat(id.dex.as_str()).concat(":");
    let s = s.concat(format_address(id.address).as_str()).concat(":");
    s.concat(pool_type_label(&id.pool_type))
}

/// The address a literal stands for, or zero where it does not read.
pub open spec fn literal_address(text: Seq<char>) -> Seq<u8> {
    if address_parses(text) {
        address_bytes(text)
    } else {
        seq![0u8; 20]
    }
}

pub(crate) fn address_or_zero(text: &str) -> (r: Address)
    ensures
        r@ == literal_address(text@),
{
    match parse_address(text) {
        Ok(a) => a,
        Err(_) => Address::zero(),
    }
}

/// The sample V2 pool's identifier on a chain.
pub fn sample_pool_identifier(chain_id: u64) -> (r: PoolIdentifier)
    ensures
        r@ == (PoolIdModel {
            chain_namespace: ChainNamespaceModel::Evm,
            chain_id,
            dex: "pancake_v2"@,
            address: literal_address("0x000000000000000000000000000000000000abcd"@),
            pool_type: PoolTypeModel::PancakeV2,
        }),
{
    PoolIdentifier {
        chain_namespace: ChainNamespace::Evm,
        chain_id,
        dex: PoolType::PancakeV2.label(),
        address: address_or_zero("0x000000000000000000000000000000000000abcd"),
        pool_type: PoolType::PancakeV2,
    }
}

/// The sample V2 pool: WBNB and BUSD, both with 18 decimals.
pub fn sample_pool(chain_id: u64) -> (r: (PoolIdentifier, Asset, Asset))
    ensures
        r.0@ == sample_pool_identifier_spec(chain_id),
        r.1@ == (AssetModel {
            address: literal_address("0x0000000000000000000000000000000000000010"@),
            symbol: "WBNB"@,
            decimals: 18,
        }),
        r.2@ == (AssetModel {
            address: literal_address("0x0000000000000000000000000000000000000020"@),
            symbol: "BUSD"@,
            decimals: 18,
        }),
{
    let pool_id = sample_pool_identifier(chain_id);
    let token0 = Asset {
        address: address_or_zero("0x0000000000000000000000000000000000000010"),
        symbol: String::from_str("WBNB"),
        decimals: 18,
    };
    let token1 = Asset {
        address: address_or_zero("0x0000000000000000000000000000000000000020"),
        symbol: String::from_str("BUSD"),
        decimals: 18,
    };
    (pool_id, token0, token1)
}

pub open spec fn sample_pool_identifier_spec(chain_id: u64) -> PoolIdModel {
    PoolIdModel {
        chain_namespace: ChainNamespaceModel::Evm,
        chain_id,
        dex: "pancake_v2"@,
        address: literal_address("0x000000000000000000000000000000000000abcd"@),
        pool_type: PoolTypeModel::PancakeV2,
    }
}

/// The addresses of the texts that read as addresses, in order; `None`
/// when there are none.
pub open spec fn readable_addresses(list: Seq<String>) -> Seq<Seq<u8>>
    decreases list.len(),
{
    if list.len() == 0 {
        Seq::empty()
    } else {
        let rest = readable_addresses(list.drop_last());
        if address_parses(list.last()@) {
            rest.push(address_bytes(list.last()@))
        } else {
            rest
        }
    }
}

pub fn parse_address_list(list: Option<&Vec<String>>) -> (r: Option<Vec<Address>>)
    ensures
        match list {
            None => r is None,
            Some(l) => {
                let found = readable_addresses(l@);
                if found.len() == 0 {
                    r is None
                } else {
                    r matches Some(v) && v@.map_values(|a: Address| a@) == found
                }
            },
        },
{
    let mut result: Vec<Address> = Vec::new();
    match list {
        Some(items) => {
            let mut i: usize = 0;
            proof {
                assert(items@.subrange(0, 0) =~= Seq::<String>::empty());
                assert(result@.map_values(|a: Address| a@) =~= Seq::<Seq<u8>>::empty());
            }
            while i < items.len()
                invariant
                    i <= items@.len(),
                    result@.map_values(|a: Address| a@) == readable_addresses(
                        items@.subrange(0, i as int),
                    ),
                decreases items@.len() - i,
            {
                let ghost before = result@.map_values(|a: Address| a@);
                proof {
                    assert(items@.subrange(0, i + 1).drop_last() =~= items@.subrange(0, i as int));
                }
                match parse_address(items[i].as_str()) {
                    Ok(a) => {
                        result.push(a);
                        proof {
                            assert(result@.map_values(|a: Address| a@) =~= before.push(a@));
                        }
                    },
                    Err(_) => {},
                }
                i = i + 1;
            }
            proof {
                assert(items@.subrange(0, items@.len() as int) =~= items@);
            }
        },
        None => {
            return None;
        },
    }
    if result.len() == 0 {
        None
    } else {
        Some(result)
    }
}


proof fn lemma_split_without_sep(x: Seq<char>, sep: char)
    requires
        !x.contains(sep),
    ensures
        split_on(x, sep) == seq![x],
    decreases x.len(),
{
    if x.len() > 0 {
        let p = x.drop_last();
        assert(!p.contains(sep)) by {
            if p.contains(sep) {
                let k = choose|k: int| 0 <= k < p.len() && p[k] == sep;
                assert(x[k] == sep);
            }
        }
        lemma_split_without_sep(p, sep);
        assert(x.last() != sep) by {
            assert(x[x.len() - 1] == x.last());
        }
        assert(p.push(x.last()) =~= x);
        assert(seq![p].update(0, p.push(x.last())) =~= seq![x]);
    } else {
        assert(x =~= Seq::<char>::empty());
    }
}

proof fn lemma_split_concat(x: Seq<char>, y: Seq<char>, sep: char)
    ensures
        split_on(x + seq![sep] + y, sep) == split_on(x, sep) + split_on(y, sep),
    decreases y.len(),
{
    let z = x + seq![sep] + y;
    lemma_split_nonempty(x, sep);
    if y.len() == 0 {
        assert(z.drop_last() =~= x);
        assert(split_on(y, sep) == seq![Seq::<char>::empty()]);
        assert(split_on(x, sep).push(Seq::<char>::empty()) =~= split_on(x, sep) + seq![Seq::<char>::empty()]);
    } else {
        let yp = y.drop_last();
        lemma_split_concat(x, yp, sep);
        lemma_split_nonempty(yp, sep);
        assert(z.drop_last() =~= x + seq![sep] + yp);
        assert(z.last() == y.last());
        let a = split_on(x, sep);
        let b = split_on(yp, sep);
        if y.last() == sep {
            assert((a + b).push(Seq::<char>::empty()) =~= a + b.push(Seq::<char>::empty()));
        } else {
            let ab = a + b;
            assert(ab.update(ab.len() - 1, ab.last().push(y.last())) =~= a + b.update(
                b.len() - 1,
                b.last().push(y.last()),
            ));
        }
    }
}

proof fn lemma_decimal(n: nat)
    ensures
        decimal(n).len() >= 1,
        all_digits(decimal(n)),
        digits_value(decimal(n)) == n,
        !decimal(n).contains(':'),
        decimal(n)[0] != '+',
    decreases n,
{
    if n >= 10 {
        lemma_decimal(n / 10);
        let p = decimal(n / 10);
        let d = decimal(n);
        assert(d.drop_last() =~= p);
        let r = n % 10;
        assert(d.last() == digit_char(r));
        assert(digit_char(r) as nat == r + 48);
        assert(n == (n / 10) * 10 + r);
        assert(digits_value(d) == digits_value(d.drop_last()) * 10 + (d.last() as nat - 48) as nat);
        assert((d.last() as nat - 48) as nat == r);
        assert(d[0] == p[0]);
        assert forall|i: int| 0 <= i < d.len() implies '0' <= #[trigger] d[i] <= '9' by {
            if i < p.len() {
                assert(d[i] == p[i]);
            }
        }
        assert(!d.contains(':')) by {
            if d.contains(':') {
                let k = choose|k: int| 0 <= k < d.len() && d[k] == ':';
                assert('0' <= d[k] <= '9');
            }
        }
    } else {
        let d = decimal(n);
        assert(!d.contains(':')) by {
            if d.contains(':') {
                let k = choose|k: int| 0 <= k < d.len() && d[k] == ':';
                assert(k == 0);
            }
        }
        assert(d.drop_last() =~= Seq::<char>::empty());
        assert(d.last() == digit_char(n));
        assert(digit_char(n) as nat == n + 48);
        assert(digits_value(d) == digits_value(d.drop_last()) * 10 + (d.last() as nat - 48) as nat);
        assert(digits_value(d.drop_last()) == 0);
    }
}

proof fn lemma_filter_keeps_all(s: Seq<char>, pred: spec_fn(char) -> bool)
    requires
        forall|i: int| 0 <= i < s.len() ==> pred(#[trigger] s[i]),
    ensures
        s.filter(pred) == s,
    decreases s.len(),
{
    reveal_with_fuel(Seq::filter, 1);
    if s.len() > 0 {
        let p = s.drop_last();
        assert forall|i: int| 0 <= i < p.len() implies pred(#[trigger] p[i]) by {
            assert(p[i] == s[i]);
        }
        lemma_filter_keeps_all(p, pred);
        assert(pred(s[s.len() - 1]));
        assert(p.push(s.last()) =~= s);
    } else {
        assert(s.filter(pred) =~= s);
    }
}

proof fn lemma_hex_digit(v: nat)
    requires
        v < 16,
    ensures
        crate::abi::hex_value(crate::abi::hex_digit(v, false)) == Some(v),
        crate::abi::hex_digit(v, false) != ':',
        !crate::abi::is_hex_space(crate::abi::hex_digit(v, false)),
        crate::abi::hex_digit(v, false) != 'x',
{
}

/// Formatting an address and parsing the text back gives the address: the
/// text that `format_address` writes is `0x` and forty hexadecimal digits,
/// the address parser accepts it and reads the same twenty bytes from it,
/// and it holds no `:`.
pub proof fn lemma_address_text(a: Seq<u8>)
    requires
        a.len() == 20,
    ensures
        address_parses(address_text(a)),
        address_bytes(address_text(a)) == a,
        !address_text(a).contains(':'),
{
    reveal_strlit("0x");
    let h = crate::abi::hex_text(a, false);
    let t = address_text(a);
    assert(t[0] == '0' && t[1] == 'x');
    assert(crate::abi::strip_0x(t) =~= h);
    assert forall|i: int| 0 <= i < h.len() implies crate::abi::hex_value(#[trigger] h[i]) is Some
        && !crate::abi::is_hex_space(h[i]) && h[i] != ':' by {
        if i % 2 == 0 {
            lemma_hex_digit(a[i / 2] as nat / 16);
        } else {
            lemma_hex_digit(a[i / 2] as nat % 16);
        }
    }
    lemma_filter_keeps_all(h, |c: char| !crate::abi::is_hex_space(c));
    assert(crate::abi::hex_digits(h) == h);
    assert(address_bytes(t) =~= a) by {
        assert forall|i: int| 0 <= i < 20 implies #[trigger] address_bytes(t)[i] == a[i] by {
            lemma_hex_digit(a[i] as nat / 16);
            lemma_hex_digit(a[i] as nat % 16);
            assert(h[2 * i] == crate::abi::hex_digit(a[i] as nat / 16, false));
            assert(h[2 * i + 1] == crate::abi::hex_digit(a[i] as nat % 16, false));
        }
    }
    assert(!t.contains(':')) by {
        if t.contains(':') {
            let k = choose|k: int| 0 <= k < t.len() && t[k] == ':';
            if k >= 2 {
                assert(t[k] == h[k - 2]);
            }
        }
    }
}

proof fn lemma_label(t: PoolTypeModel)
    requires
        !(t is Other),
    ensures
        pool_type_of(short_label(t)) == t,
        !short_label(t).contains(':'),
{
    reveal_strlit("pancake_v2");
    reveal_strlit("pancake_v3");
    reveal_strlit("pancake_v4");
    reveal_strlit("uniswap_v2");
    reveal_strlit("uniswap_v3");
    let l = short_label(t);
    assert("pancake_v2"@[9] == '2' && "pancake_v3"@[9] == '3' && "pancake_v4"@[9] == '4');
    assert("pancake_v2"@[0] == 'p' && "uniswap_v2"@[0] == 'u');
    assert("uniswap_v2"@[9] == '2' && "uniswap_v3"@[9] == '3');
    assert(!l.contains(':')) by {
        if l.contains(':') {
            let k = choose|k: int| 0 <= k < l.len() && l[k] == ':';
        }
    }
    match t {
        PoolTypeModel::PancakeV2 => {},
        PoolTypeModel::PancakeV3 => {
            assert(l != "pancake_v2"@) by {
                assert(l[9] != "pancake_v2"@[9]);
            }
        },
        PoolTypeModel::PancakeV4 => {
            assert(l != "pancake_v2"@) by {
                assert(l[9] != "pancake_v2"@[9]);
            }
            assert(l != "pancake_v3"@) by {
                assert(l[9] != "pancake_v3"@[9]);
            }
        },
        PoolTypeModel::UniswapV2 => {
            assert(l != "pancake_v2"@ && l != "pancake_v3"@ && l != "pancake_v4"@) by {
                assert(l[0] != "pancake_v2"@[0]);
            }
        },
        PoolTypeModel::UniswapV3 => {
            assert(l != "pancake_v2"@ && l != "pancake_v3"@ && l != "pancake_v4"@) by {
                assert(l[0] != "pancake_v2"@[0]);
            }
            assert(l != "uniswap_v2"@) by {
                assert(l[9] != "uniswap_v2"@[9]);
            }
        },
        PoolTypeModel::Other(_) => {},
    }
}

/// Reading back the text of an identifier gives the identifier, when its
/// DEX name is non-empty and holds no `:`, its type is a named one, and its
/// namespace is EVM (the text carries no namespace).
pub proof fn lemma_identifier_roundtrip(id: PoolIdModel)
    requires
        id.chain_namespace == ChainNamespaceModel::Evm,
        id.dex.len() > 0,
        !id.dex.contains(':'),
        id.address.len() == 20,
        !(id.pool_type is Other),
    ensures
        pool_id_from_text(identifier_text(id)) == Some(id),
{
    reveal_strlit(":");
    let c = ":"@;
    assert(c == seq![':']);
    let d = decimal(id.chain_id as nat);
    let h = address_text(id.address);
    let l = short_label(id.pool_type);
    lemma_decimal(id.chain_id as nat);
    lemma_address_text(id.address);
    lemma_label(id.pool_type);
    let text = identifier_text(id);
    assert(text =~= d + seq![':'] + (id.dex + seq![':'] + (h + seq![':'] + l)));
    lemma_split_concat(d, id.dex + seq![':'] + (h + seq![':'] + l), ':');
    lemma_split_concat(id.dex, h + seq![':'] + l, ':');
    lemma_split_concat(h, l, ':');
    lemma_split_without_sep(d, ':');
    lemma_split_without_sep(id.dex, ':');
    lemma_split_without_sep(h, ':');
    lemma_split_without_sep(l, ':');
    let parts = split_on(text, ':');
    assert(parts =~= seq![d, id.dex, h, l]);
    assert(u64_from_text(d) == Some(id.chain_id)) by {
        assert(d[0] != '+');
    }
}

} // verus!
