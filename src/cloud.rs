use vstd::prelude::*;
use vstd::string::StringExecFns;

use crate::error::AddItemError;
use crate::peer::{PeerData, PeerView, strings_view};

verus! {

/// An attribute value of the table service: text, a number written as text, or
/// a list.
#[derive(Debug, PartialEq, Eq)]
pub enum AttrValue {
    S(String),
    N(String),
    L(Vec<AttrValue>),
}

/// The decimal digit `d`.
pub open spec fn digit_char(d: int) -> char {
    seq!['0', '1', '2', '3', '4', '5', '6', '7', '8', '9'][d]
}

/// The decimal digits of `n`, most significant first, without leading zeros.
pub open spec fn digits(n: nat) -> Seq<char>
    decreases n,
{
    if n < 10 {
        seq![digit_char(n as int)]
    } else {
        digits(n / 10).push(digit_char((n % 10) as int))
    }
}

/// The decimal text of an integer, with a leading `-` when it is negative.
pub open spec fn int_text(v: int) -> Seq<char> {
    if v < 0 {
        seq!['-'] + digits((-v) as nat)
    } else {
        digits(v as nat)
    }
}

/// Relies on `ToString` for `i64`, which writes the integer in decimal.
#[verifier::external_body]
fn decimal_text(v: i64) -> (r: String)
    ensures
        r@ == int_text(v as int),
{
    v.to_string()
}

/// One attribute: its name and value.
fn attr(name: &str, value: AttrValue) -> (r: (String, AttrValue))
    ensures
        r.0@ == name@,
        r.1 == value,
{
    (String::from_str(name), value)
}

/// The list attribute that holds the capability names, in order.
pub fn capability_list(caps: &Vec<String>) -> (r: Vec<AttrValue>)
    ensures
        r@.len() == caps@.len(),
        forall|i: int| 0 <= i < caps@.len() ==> r@[i] == AttrValue::S(caps@[i]),
{
    let mut r: Vec<AttrValue> = Vec::new();
    let mut i: usize = 0;
    while i < caps.len()
        invariant
            i <= caps.len(),
            r@.len() == i,
            forall|j: int| 0 <= j < i ==> r@[j] == AttrValue::S(caps@[j]),
        decreases caps.len() - i,
    {
        r.push(AttrValue::S(caps[i].clone()));
        i = i + 1;
    }
    r
}

/// `v` is text holding exactly `t`.
pub open spec fn is_text(v: AttrValue, t: String) -> bool {
    v == AttrValue::S(t)
}

/// `v` is a number written as the decimal text of `n`.
pub open spec fn is_number(v: AttrValue, n: int) -> bool {
    v matches AttrValue::N(t) && t@ == int_text(n)
}

/// `v` is the list of the capability names `caps`, in order.
pub open spec fn is_capability_list(v: AttrValue, caps: Seq<String>) -> bool {
    v matches AttrValue::L(l) && l@.len() == caps.len() && forall|i: int|
        0 <= i < caps.len() ==> l@[i] == AttrValue::S(caps[i])
}

/// `item` is the full attribute set written for `p`: each field under its
/// attribute name, the region that wrote it, and the expiry instant.
pub open spec fn is_peer_item(item: Seq<(String, AttrValue)>, p: PeerData, ttl: i64, region: String) -> bool {
    &&& item.len() == 16
    &&& item[0].0@ == "peer-id"@ && is_text(item[0].1, p.id)
    &&& item[1].0@ == "peer-ip"@ && is_text(item[1].1, p.address)
    &&& item[2].0@ == "client_version"@ && is_text(item[2].1, p.client_version)
    &&& item[3].0@ == "enode_url"@ && is_text(item[3].1, p.enode_url)
    &&& item[4].0@ == "port"@ && is_number(item[4].1, p.tcp_port as int)
    &&& item[5].0@ == "chain"@ && is_text(item[5].1, p.chain)
    &&& item[6].0@ == "country"@ && is_text(item[6].1, p.country)
    &&& item[7].0@ == "city"@ && is_text(item[7].1, p.city)
    &&& item[8].0@ == "capabilities"@ && is_capability_list(item[8].1, p.capabilities@)
    &&& item[9].0@ == "eth_version"@ && is_number(item[9].1, p.eth_version as int)
    &&& item[10].0@ == "last_seen"@ && is_text(item[10].1, p.last_seen)
    &&& item[11].0@ == "source_region"@ && is_text(item[11].1, region)
    &&& item[12].0@ == "genesis_block_hash"@ && is_text(item[12].1, p.genesis_block_hash)
    &&& item[13].0@ == "best_block"@ && is_text(item[13].1, p.best_block)
    &&& item[14].0@ == "total_difficulty"@ && is_text(item[14].1, p.total_difficulty)
    &&& item[15].0@ == "ttl"@ && is_number(item[15].1, ttl as int)
}

/// The attribute set that the table service stores for `peer_data`, written in
/// full on every call. The service expires records by the time-to-live, so a
/// missing one is refused.
pub fn peer_item(peer_data: PeerData, ttl: Option<i64>, source_region: String) -> (r: Result<
    Vec<(String, AttrValue)>,
    AddItemError,
>)
    ensures
        ttl is None ==> r == Err::<Vec<(String, AttrValue)>, AddItemError>(
            AddItemError::MissingTtl(),
        ),
        ttl is Some ==> r is Ok && is_peer_item(r->Ok_0@, peer_data, ttl->0, source_region),
{
    let ttl = match ttl {
        Some(t) => t,
        None => {
            return Err(AddItemError::MissingTtl());
        },
    };
    let capabilities = capability_list(&peer_data.capabilities);
    let mut item: Vec<(String, AttrValue)> = Vec::new();
    item.push(attr("peer-id", AttrValue::S(peer_data.id)));
    item.push(attr("peer-ip", AttrValue::S(peer_data.address)));
    item.push(attr("client_version", AttrValue::S(peer_data.client_version)));
    item.push(attr("enode_url", AttrValue::S(peer_data.enode_url)));
    item.push(attr("port", AttrValue::N(decimal_text(peer_data.tcp_port as i64))));
    item.push(attr("chain", AttrValue::S(peer_data.chain)));
    item.push(attr("country", AttrValue::S(peer_data.country)));
    item.push(attr("city", AttrValue::S(peer_data.city)));
    item.push(attr("capabilities", AttrValue::L(capabilities)));
    item.push(attr("eth_version", AttrValue::N(decimal_text(peer_data.eth_version as i64))));
    item.push(attr("last_seen", AttrValue::S(peer_data.last_seen)));
    item.push(attr("source_region", AttrValue::S(source_region)));
    item.push(attr("genesis_block_hash", AttrValue::S(peer_data.genesis_block_hash)));
    item.push(attr("best_block", AttrValue::S(peer_data.best_block)));
    item.push(attr("total_difficulty", AttrValue::S(peer_data.total_difficulty)));
    item.push(attr("ttl", AttrValue::N(decimal_text(ttl))));
    Ok(item)
}

/// `c` is a decimal digit.
pub open spec fn is_digit(c: char) -> bool {
    '0' <= c && c <= '9'
}

/// A non-empty run of decimal digits.
pub open spec fn is_digits(s: Seq<char>) -> bool {
    s.len() > 0 && forall|i: int| 0 <= i < s.len() ==> is_digit(#[trigger] s[i])
}

/// The value of a run of decimal digits.
pub open spec fn digits_value(s: Seq<char>) -> int
    decreases s.len(),
{
    if s.len() == 0 {
        0
    } else {
        digits_value(s.drop_last()) * 10 + (s.last() as u32 - '0' as u32)
    }
}

/// The number written as `s`, when it is a run of digits of value at most `max`.
pub open spec fn number_value(s: Seq<char>, max: int) -> Option<int> {
    if is_digits(s) && digits_value(s) <= max {
        Some(digits_value(s))
    } else {
        None
    }
}

proof fn lemma_digits_value_grows(s: Seq<char>, i: int)
    requires
        0 <= i <= s.len(),
        forall|j: int| 0 <= j < s.len() ==> is_digit(#[trigger] s[j]),
    ensures
        digits_value(s.take(i)) <= digits_value(s),
    decreases s.len() - i,
{
    if i < s.len() {
        lemma_digits_value_grows(s, i + 1);
        assert(s.take(i + 1).drop_last() =~= s.take(i));
        assert(is_digit(s[i]));
        assert(digits_value(s.take(i)) >= 0) by {
            lemma_digits_value_nonneg(s.take(i));
        }
    } else {
        assert(s.take(i) =~= s);
    }
}

proof fn lemma_digits_value_nonneg(s: Seq<char>)
    requires
        forall|j: int| 0 <= j < s.len() ==> is_digit(#[trigger] s[j]),
    ensures
        digits_value(s) >= 0,
    decreases s.len(),
{
    if s.len() > 0 {
        assert(is_digit(s[s.len() - 1]));
        lemma_digits_value_nonneg(s.drop_last());
    }
}

/// Reads a decimal number of at most `max`.
pub fn parse_number(s: &str, max: u64) -> (r: Option<u64>)
    ensures
        r is Some <==> number_value(s@, max as int) is Some,
        r is Some ==> r->0 == number_value(s@, max as int)->0,
{
    let n = s.unicode_len();
    if n == 0 {
        return None;
    }
    let mut acc: u64 = 0;
    let mut i: usize = 0;
    while i < n
        invariant
            n == s@.len(),
            i <= n,
            acc <= max,
            acc == digits_value(s@.take(i as int)),
            forall|j: int| 0 <= j < i ==> is_digit(#[trigger] s@[j]),
        decreases n - i,
    {
        let c = s.get_char(i);
        assert(s@.take(i + 1).drop_last() =~= s@.take(i as int));
        if !('0' <= c && c <= '9') {
            return None;
        }
        let d = (c as u32 - '0' as u32) as u64;
        if d > max || acc > (max - d) / 10 {
            proof {
                assert(acc * 10 + d > max) by (nonlinear_arith)
                    requires d > max || acc > (max - d) / 10, acc >= 0;
                assert forall|j: int| 0 <= j < i + 1 implies is_digit(#[trigger] s@[j]) by {}
                if is_digits(s@) {
                    lemma_digits_value_grows(s@, i + 1);
                }
            }
            return None;
        }
        proof {
            assert(acc * 10 + d <= max) by (nonlinear_arith)
                requires acc <= (max - d) / 10, d <= max;
        }
        acc = acc * 10 + d;
        i = i + 1;
    }
    assert(s@.take(n as int) =~= s@);
    Some(acc)
}

/// The value of the first attribute named `name`.
pub open spec fn first_named(item: Seq<(String, AttrValue)>, name: Seq<char>) -> Option<AttrValue>
    decreases item.len(),
{
    if item.len() == 0 {
        None
    } else if item[0].0@ == name {
        Some(item[0].1)
    } else {
        first_named(item.drop_first(), name)
    }
}

/// The text held by the attribute `name`, when it is text.
pub open spec fn text_of(item: Seq<(String, AttrValue)>, name: Seq<char>) -> Option<Seq<char>> {
    match first_named(item, name) {
        Some(AttrValue::S(t)) => Some(t@),
        _ => None,
    }
}

/// The number held by the attribute `name`, when it is a number of at most `max`.
pub open spec fn number_of(item: Seq<(String, AttrValue)>, name: Seq<char>, max: int) -> Option<int> {
    match first_named(item, name) {
        Some(AttrValue::N(t)) => number_value(t@, max),
        _ => None,
    }
}

/// The texts of a list of attribute values, when every one is text.
pub open spec fn texts_of_list(l: Seq<AttrValue>) -> Option<Seq<Seq<char>>> {
    if forall|i: int| 0 <= i < l.len() ==> (#[trigger] l[i]) is S {
        Some(l.map_values(|v: AttrValue| v->S_0@))
    } else {
        None
    }
}

/// The texts held by the list attribute `name`, when it is a list of texts.
pub open spec fn names_of(item: Seq<(String, AttrValue)>, name: Seq<char>) -> Option<Seq<Seq<char>>> {
    match first_named(item, name) {
        Some(AttrValue::L(l)) => texts_of_list(l@),
        _ => None,
    }
}

/// The record that an attribute set describes, when every field is present
/// with the right kind of value.
pub open spec fn item_peer(item: Seq<(String, AttrValue)>) -> Option<PeerView> {
    let id = text_of(item, "peer-id"@);
    let address = text_of(item, "peer-ip"@);
    let client_version = text_of(item, "client_version"@);
    let enode_url = text_of(item, "enode_url"@);
    let port = number_of(item, "port"@, u16::MAX as int);
    let chain = text_of(item, "chain"@);
    let country = text_of(item, "country"@);
    let city = text_of(item, "city"@);
    let capabilities = names_of(item, "capabilities"@);
    let eth_version = number_of(item, "eth_version"@, u8::MAX as int);
    let last_seen = text_of(item, "last_seen"@);
    let genesis = text_of(item, "genesis_block_hash"@);
    let best_block = text_of(item, "best_block"@);
    let total_difficulty = text_of(item, "total_difficulty"@);
    if id is Some && address is Some && client_version is Some && enode_url is Some && port is Some
        && chain is Some && country is Some && city is Some && capabilities is Some
        && eth_version is Some && last_seen is Some && genesis is Some && best_block is Some
        && total_difficulty is Some {
        Some(
            PeerView {
                id: id->0,
                address: address->0,
                client_version: client_version->0,
                enode_url: enode_url->0,
                tcp_port: port->0 as u16,
                chain: chain->0,
                genesis_block_hash: genesis->0,
                best_block: best_block->0,
                total_difficulty: total_difficulty->0,
                country: country->0,
                city: city->0,
                last_seen: last_seen->0,
                capabilities: capabilities->0,
                eth_version: eth_version->0 as u8,
            },
        )
    } else {
        None
    }
}

/// The first attribute named `name`.
fn find_attr<'a>(item: &'a Vec<(String, AttrValue)>, name: &str) -> (r: Option<&'a AttrValue>)
    ensures
        r is Some <==> first_named(item@, name@) is Some,
        r is Some ==> *r->0 == first_named(item@, name@)->0,
{
    let key = String::from_str(name);
    let mut i: usize = 0;
    assert(item@.skip(0) =~= item@);
    while i < item.len()
        invariant
            i <= item.len(),
            key@ == name@,
            first_named(item@, name@) == first_named(item@.skip(i as int), name@),
        decreases item.len() - i,
    {
        let entry = &item[i];
        if entry.0 == key {
            return Some(&entry.1);
        }
        assert(item@.skip(i as int).drop_first() =~= item@.skip(i + 1));
        i = i + 1;
    }
    None
}

/// The text held by the attribute `name`.
fn text_attr(item: &Vec<(String, AttrValue)>, name: &str) -> (r: Option<String>)
    ensures
        r is Some <==> text_of(item@, name@) is Some,
        r is Some ==> r->0@ == text_of(item@, name@)->0,
{
    match find_attr(item, name) {
        Some(AttrValue::S(t)) => Some(t.clone()),
        _ => None,
    }
}

/// The number of at most `max` held by the attribute `name`.
fn number_attr(item: &Vec<(String, AttrValue)>, name: &str, max: u64) -> (r: Option<u64>)
    ensures
        r is Some <==> number_of(item@, name@, max as int) is Some,
        r is Some ==> r->0 == number_of(item@, name@, max as int)->0,
{
    match find_attr(item, name) {
        Some(AttrValue::N(t)) => parse_number(t.as_str(), max),
        _ => None,
    }
}

/// The texts held by the list attribute `name`.
fn names_attr(item: &Vec<(String, AttrValue)>, name: &str) -> (r: Option<Vec<String>>)
    ensures
        r is Some <==> names_of(item@, name@) is Some,
        r is Some ==> strings_view(r->0@) == names_of(item@, name@)->0,
{
    let found = find_attr(item, name);
    if found.is_none() {
        return None;
    }
    let v = found.unwrap();
    assert(*v == first_named(item@, name@)->0);
    let l = match v {
        AttrValue::L(l) => l,
        _ => {
            return None;
        },
    };
    let mut out: Vec<String> = Vec::new();
    let mut i: usize = 0;
    while i < l.len()
        invariant
            i <= l.len(),
            *v == AttrValue::L(*l),
            *v == first_named(item@, name@)->0,
            first_named(item@, name@) is Some,
            out@.len() == i,
            forall|j: int| 0 <= j < i ==> (#[trigger] l@[j]) is S && out@[j]@ == l@[j]->S_0@,
        decreases l.len() - i,
    {
        match &l[i] {
            AttrValue::S(t) => out.push(t.clone()),
            _ => {
                assert(!(l@[i as int] is S));
                assert(texts_of_list(l@) is None);
                return None;
            },
        }
        i = i + 1;
    }
    assert(strings_view(out@) =~= l@.map_values(|v: AttrValue| v->S_0@));
    Some(out)
}

/// The record that an attribute set read from the table service describes, or
/// `None` when a field is missing or of the wrong kind.
pub fn peer_from_item(item: &Vec<(String, AttrValue)>) -> (r: Option<PeerData>)
    ensures
        r is Some <==> item_peer(item@) is Some,
        r is Some ==> r->0@ == item_peer(item@)->0,
{
    let id = text_attr(item, "peer-id");
    let address = text_attr(item, "peer-ip");
    let client_version = text_attr(item, "client_version");
    let enode_url = text_attr(item, "enode_url");
    let port = number_attr(item, "port", u16::MAX as u64);
    let chain = text_attr(item, "chain");
    let country = text_attr(item, "country");
    let city = text_attr(item, "city");
    let capabilities = names_attr(item, "capabilities");
    let eth_version = number_attr(item, "eth_version", u8::MAX as u64);
    let last_seen = text_attr(item, "last_seen");
    let genesis = text_attr(item, "genesis_block_hash");
    let best_block = text_attr(item, "best_block");
    let total_difficulty = text_attr(item, "total_difficulty");
    match (id, address, client_version, enode_url, port, chain, country) {
        (Some(id), Some(address), Some(client_version), Some(enode_url), Some(port), Some(chain), Some(country)) => {
            match (city, capabilities, eth_version, last_seen, genesis, best_block, total_difficulty) {
                (Some(city), Some(capabilities), Some(eth_version), Some(last_seen), Some(genesis), Some(best_block), Some(total_difficulty)) => {
                    Some(PeerData {
                        id,
                        address,
                        client_version,
                        enode_url,
                        tcp_port: port as u16,
                        chain,
                        genesis_block_hash: genesis,
                        best_block,
                        total_difficulty,
                        country,
                        city,
                        last_seen,
                        capabilities,
                        eth_version: eth_version as u8,
                    })
                },
                _ => None,
            }
        },
        _ => None,
    }
}

proof fn lemma_digit_char(d: int)
    requires
        0 <= d < 10,
    ensures
        is_digit(digit_char(d)),
        digit_char(d) as u32 - '0' as u32 == d,
{
    let t = seq!['0', '1', '2', '3', '4', '5', '6', '7', '8', '9'];
    assert(t[0] == '0' && t[1] == '1' && t[2] == '2' && t[3] == '3' && t[4] == '4');
    assert(t[5] == '5' && t[6] == '6' && t[7] == '7' && t[8] == '8' && t[9] == '9');
}

proof fn lemma_digits_read_back(n: nat)
    ensures
        is_digits(digits(n)),
        digits_value(digits(n)) == n,
    decreases n,
{
    if n < 10 {
        lemma_digit_char(n as int);
        assert(digits(n).drop_last() =~= Seq::<char>::empty());
        assert(digits_value(Seq::<char>::empty()) == 0);
        assert(digits(n).last() == digit_char(n as int));
    } else {
        lemma_digits_read_back(n / 10);
        lemma_digit_char((n % 10) as int);
        let d = digits(n);
        assert(d.drop_last() == digits(n / 10));
        assert(d.last() == digit_char((n % 10) as int));
        assert(n == (n / 10) * 10 + n % 10);
        assert forall|i: int| 0 <= i < d.len() implies is_digit(#[trigger] d[i]) by {
            if i < d.len() - 1 {
                assert(d[i] == digits(n / 10)[i]);
            }
        }
    }
}

/// The decimal text of a number of at most `max` reads back as that number.
proof fn lemma_number_read_back(n: int, max: int)
    requires
        0 <= n <= max,
    ensures
        number_value(int_text(n), max) == Some(n),
{
    lemma_digits_read_back(n as nat);
}

proof fn lemma_first_named_at(item: Seq<(String, AttrValue)>, name: Seq<char>, k: int)
    requires
        0 <= k < item.len(),
        item[k].0@ == name,
        forall|j: int| 0 <= j < k ==> item[j].0@ != name,
    ensures
        first_named(item, name) == Some(item[k].1),
    decreases k,
{
    if k > 0 {
        let rest = item.drop_first();
        assert forall|j: int| 0 <= j < k - 1 implies rest[j].0@ != name by {
            assert(rest[j] == item[j + 1]);
        }
        lemma_first_named_at(rest, name, k - 1);
    }
}

/// The attribute set written for a record reads back as that record.
pub proof fn item_round_trip(item: Seq<(String, AttrValue)>, p: PeerData, ttl: i64, region: String)
    requires
        is_peer_item(item, p, ttl, region),
    ensures
        item_peer(item) == Some(p@),
{
    reveal_strlit("peer-id");
    reveal_strlit("peer-ip");
    reveal_strlit("client_version");
    reveal_strlit("enode_url");
    reveal_strlit("port");
    reveal_strlit("chain");
    reveal_strlit("country");
    reveal_strlit("city");
    reveal_strlit("capabilities");
    reveal_strlit("eth_version");
    reveal_strlit("last_seen");
    reveal_strlit("source_region");
    reveal_strlit("genesis_block_hash");
    reveal_strlit("best_block");
    reveal_strlit("total_difficulty");
    reveal_strlit("ttl");
    assert("peer-id"@.len() == 7 && "peer-ip"@.len() == 7 && "country"@.len() == 7);
    assert("port"@.len() == 4 && "city"@.len() == 4 && "ttl"@.len() == 3 && "chain"@.len() == 5);
    assert("enode_url"@.len() == 9 && "last_seen"@.len() == 9 && "best_block"@.len() == 10);
    assert("client_version"@.len() == 14 && "capabilities"@.len() == 12);
    assert("eth_version"@.len() == 11 && "source_region"@.len() == 13);
    assert("genesis_block_hash"@.len() == 18 && "total_difficulty"@.len() == 16);
    assert("peer-id"@[6] != "peer-ip"@[6]);
    assert("peer-id"@[0] != "country"@[0] && "peer-ip"@[0] != "country"@[0]);
    assert("port"@[0] != "city"@[0]);
    assert("enode_url"@[0] != "last_seen"@[0]);
    lemma_first_named_at(item, "peer-id"@, 0);
    lemma_first_named_at(item, "peer-ip"@, 1);
    lemma_first_named_at(item, "client_version"@, 2);
    lemma_first_named_at(item, "enode_url"@, 3);
    lemma_first_named_at(item, "port"@, 4);
    lemma_first_named_at(item, "chain"@, 5);
    lemma_first_named_at(item, "country"@, 6);
    lemma_first_named_at(item, "city"@, 7);
    lemma_first_named_at(item, "capabilities"@, 8);
    lemma_first_named_at(item, "eth_version"@, 9);
    lemma_first_named_at(item, "last_seen"@, 10);
    lemma_first_named_at(item, "genesis_block_hash"@, 12);
    lemma_first_named_at(item, "best_block"@, 13);
    lemma_first_named_at(item, "total_difficulty"@, 14);
    lemma_number_read_back(p.tcp_port as int, u16::MAX as int);
    lemma_number_read_back(p.eth_version as int, u8::MAX as int);
    let l = item[8].1->L_0@;
    assert(forall|i: int| 0 <= i < l.len() ==> (#[trigger] l[i]) is S);
    assert(l.map_values(|v: AttrValue| v->S_0@) =~= strings_view(p.capabilities@));
    assert(item_peer(item)->0 =~= p@);
}

} // verus!
