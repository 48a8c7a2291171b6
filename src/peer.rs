use vstd::prelude::*;

verus! {

/// What is known of one peer of the network, keyed by `id`.
#[derive(Clone, Debug, PartialEq, Eq)]
pub struct PeerData {
    pub id: String,
    pub address: String,
    pub client_version: String,
    pub enode_url: String,
    pub tcp_port: u16,
    pub chain: String,
    pub genesis_block_hash: String,
    pub best_block: String,
    pub total_difficulty: String,
    pub country: String,
    pub city: String,
    pub last_seen: String,
    pub capabilities: Vec<String>,
    pub eth_version: u8,
}

/// The mathematical value of a peer record: every text as its characters.
pub struct PeerView {
    pub id: Seq<char>,
    pub address: Seq<char>,
    pub client_version: Seq<char>,
    pub enode_url: Seq<char>,
    pub tcp_port: u16,
    pub chain: Seq<char>,
    pub genesis_block_hash: Seq<char>,
    pub best_block: Seq<char>,
    pub total_difficulty: Seq<char>,
    pub country: Seq<char>,
    pub city: Seq<char>,
    pub last_seen: Seq<char>,
    pub capabilities: Seq<Seq<char>>,
    pub eth_version: u8,
}

/// The characters of each string of a vector.
pub open spec fn strings_view(v: Seq<String>) -> Seq<Seq<char>> {
    v.map_values(|s: String| s@)
}

impl View for PeerData {
    type V = PeerView;

    open spec fn view(&self) -> PeerView {
        PeerView {
            id: self.id@,
            address: self.address@,
            client_version: self.client_version@,
            enode_url: self.enode_url@,
            tcp_port: self.tcp_port,
            chain: self.chain@,
            genesis_block_hash: self.genesis_block_hash@,
            best_block: self.best_block@,
            total_difficulty: self.total_difficulty@,
            country: self.country@,
            city: self.city@,
            last_seen: self.last_seen@,
            capabilities: strings_view(self.capabilities@),
            eth_version: self.eth_version,
        }
    }
}

/// A copy of each string of `v`, in order.
pub fn copy_strings(v: &Vec<String>) -> (r: Vec<String>)
    ensures
        strings_view(r@) == strings_view(v@),
{
    let mut r: Vec<String> = Vec::new();
    let mut i: usize = 0;
    while i < v.len()
        invariant
            i <= v.len(),
            r.len() == i,
            forall|j: int| 0 <= j < i ==> r@[j]@ == v@[j]@,
        decreases v.len() - i,
    {
        let s = v[i].clone();
        r.push(s);
        i = i + 1;
    }
    assert(strings_view(r@) =~= strings_view(v@));
    r
}

impl PeerData {
    /// A copy of this record that holds the same values.
    pub fn duplicate(&self) -> (r: PeerData)
        ensures
            r@ == self@,
    {
        PeerData {
            id: self.id.clone(),
            address: self.address.clone(),
            client_version: self.client_version.clone(),
            enode_url: self.enode_url.clone(),
            tcp_port: self.tcp_port,
            chain: self.chain.clone(),
            genesis_block_hash: self.genesis_block_hash.clone(),
            best_block: self.best_block.clone(),
            total_difficulty: self.total_difficulty.clone(),
            country: self.country.clone(),
            city: self.city.clone(),
            last_seen: self.last_seen.clone(),
            capabilities: copy_strings(&self.capabilities),
            eth_version: self.eth_version,
        }
    }
}

} // verus!
