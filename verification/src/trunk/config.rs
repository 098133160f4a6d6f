//! Configuration of the trunk host and its peers.

use vstd::prelude::*;

use crate::text;

verus! {

/// Configuration of the trunk host.
#[derive(Debug, Clone, PartialEq)]
pub struct ServerConfig {
    /// The address to listen on, such as `0.0.0.0:5080`.
    pub listen: String,
    /// The peers that may connect.
    pub peers: Vec<PeerConfig>,
    /// The lowest RTP port, zero to let the system choose.
    pub rtp_port_min: u16,
    /// The highest RTP port, zero to let the system choose.
    pub rtp_port_max: u16,
    /// The IP address that is advertised for media.
    pub rtp_address: Option<String>,
}

/// A SIP peer that calls may come from or go to.
#[derive(Debug, Clone, PartialEq)]
pub struct PeerConfig {
    /// The peer's name, such as `office-pbx`.
    pub name: String,
    /// The IP address that identifies the peer, and that calls to it go to.
    pub host: Option<String>,
    /// Further IP addresses and ranges that identify the peer.
    pub hosts: Vec<String>,
    /// The SIP port for calls to the peer.
    pub port: u16,
    /// Credentials that the peer has to show.
    pub auth: Option<PeerAuthConfig>,
    /// The codecs that the peer may use, all if empty.
    pub codecs: Vec<String>,
    /// The IP address that is advertised to this peer for media.
    pub rtp_address: Option<String>,
}

/// Credentials of a peer.
#[derive(Debug, Clone, PartialEq)]
pub struct PeerAuthConfig {
    pub username: String,
    pub password: String,
}

/// The SIP port where a peer's configuration names none.
pub fn default_sip_port() -> (res: u16)
    ensures
        res == 5060,
{
    5060
}

impl PeerAuthConfig {
    /// Credentials of this user name and password.
    pub fn new(username: &str, password: &str) -> (a: Self)
        ensures
            a.username@ == username@,
            a.password@ == password@,
    {
        PeerAuthConfig { username: username.to_owned(), password: password.to_owned() }
    }
}

/// The first peer of this name.
pub open spec fn peer_named(peers: Seq<PeerConfig>, name: Seq<char>) -> Option<PeerConfig>
    decreases peers.len(),
{
    if peers.len() == 0 {
        None
    } else if peers[0].name@ == name {
        Some(peers[0])
    } else {
        peer_named(peers.drop_first(), name)
    }
}

/// The first peer whose flag is set.
pub open spec fn peer_flagged(peers: Seq<PeerConfig>, flags: Seq<bool>) -> Option<PeerConfig>
    decreases peers.len(),
{
    if peers.len() == 0 {
        None
    } else if flags[0] {
        Some(peers[0])
    } else {
        peer_flagged(peers.drop_first(), flags.drop_first())
    }
}

/// Whether an entry, an IP address or a range of them in CIDR notation, covers an IP
/// address.
pub uninterp spec fn address_covered(entry: Seq<char>, ip: Seq<char>) -> bool;

/// Whether a peer is known by an IP address: it is the peer's host, or covered by that or
/// by one of the further entries.
pub open spec fn is_known_by(peer: PeerConfig, ip: Seq<char>) -> bool {
    ||| peer.host matches Some(host) && (host@ == ip || address_covered(host@, ip))
    ||| exists|i: int|
        0 <= i < peer.hosts@.len() && address_covered((#[trigger] peer.hosts@[i])@, ip)
}

/// For each peer, whether it is known by an IP address.
pub open spec fn known_flags(peers: Seq<PeerConfig>, ip: Seq<char>) -> Seq<bool> {
    Seq::new(peers.len(), |i: int| is_known_by(peers[i], ip))
}

/// `PeerConfig::matches_ip` of the crate xphone, for a peer with this one entry: whether
/// the entry is the address, or a range that holds it. The outcome depends on the two texts
/// alone; a text that is no address, or an entry that is none and no range, matches
/// nothing.
#[verifier::external_body]
fn covers(entry: &str, ip: &str) -> (res: bool)
    ensures
        res == address_covered(entry@, ip@),
{
    match ip.parse() {
        Ok(ip) => xphone::PeerConfig { hosts: vec![entry.to_owned()], ..Default::default() }
            .matches_ip(ip),
        Err(_) => false,
    }
}

impl PeerConfig {
    /// Whether the peer is known by an IP address.
    pub fn known_by(&self, ip: &str) -> (res: bool)
        ensures
            res == is_known_by(*self, ip@),
    {
        match &self.host {
            Some(host) => {
                if text::same_text(host.as_str(), ip) || covers(host.as_str(), ip) {
                    return true;
                }
            },
            None => {},
        }
        let mut i: usize = 0;
        while i < self.hosts.len()
            invariant
                i <= self.hosts@.len(),
                forall|j: int| 0 <= j < i ==> !address_covered((#[trigger] self.hosts@[j])@, ip@),
            decreases self.hosts@.len() - i,
        {
            if covers(self.hosts[i].as_str(), ip) {
                assert(address_covered(self.hosts@[i as int]@, ip@));
                return true;
            }
            i += 1;
        }
        false
    }
}

impl ServerConfig {
    /// The first peer of this name.
    pub fn peer(&self, name: &str) -> (res: Option<&PeerConfig>)
        ensures
            match res {
                Some(p) => peer_named(self.peers@, name@) == Some(*p),
                None => peer_named(self.peers@, name@) is None,
            },
    {
        let ghost peers = self.peers@;
        let mut i: usize = 0;
        assert(peers.skip(0) =~= peers);
        while i < self.peers.len()
            invariant
                peers == self.peers@,
                i <= peers.len(),
                peer_named(peers, name@) == peer_named(peers.skip(i as int), name@),
            decreases peers.len() - i,
        {
            let ghost rest = peers.skip(i as int);
            assert(rest[0] == peers[i as int]);
            assert(rest.drop_first() =~= peers.skip(i + 1));
            if text::same_text(self.peers[i].name.as_str(), name) {
                return Some(&self.peers[i]);
            }
            i += 1;
        }
        None
    }

    /// The first peer whose flag is set; there is a flag for each peer.
    pub fn first_flagged(&self, flags: &Vec<bool>) -> (res: Option<&PeerConfig>)
        requires
            flags@.len() == self.peers@.len(),
        ensures
            match res {
                Some(p) => peer_flagged(self.peers@, flags@) == Some(*p),
                None => peer_flagged(self.peers@, flags@) is None,
            },
    {
        let ghost peers = self.peers@;
        let mut i: usize = 0;
        assert(peers.skip(0) =~= peers);
        assert(flags@.skip(0) =~= flags@);
        while i < self.peers.len()
            invariant
                peers == self.peers@,
                flags@.len() == peers.len(),
                i <= peers.len(),
                peer_flagged(peers, flags@) == peer_flagged(
                    peers.skip(i as int),
                    flags@.skip(i as int),
                ),
            decreases peers.len() - i,
        {
            proof {
                assert(peers.skip(i as int)[0] == peers[i as int]);
                assert(flags@.skip(i as int)[0] == flags@[i as int]);
                assert(peers.skip(i as int).drop_first() =~= peers.skip(i + 1));
                assert(flags@.skip(i as int).drop_first() =~= flags@.skip(i + 1));
            }
            if flags[i] {
                return Some(&self.peers[i]);
            }
            i += 1;
        }
        None
    }

    /// The first peer that is known by an IP address.
    pub fn peer_at(&self, ip: &str) -> (res: Option<&PeerConfig>)
        ensures
            match res {
                Some(p) => peer_flagged(self.peers@, known_flags(self.peers@, ip@)) == Some(*p),
                None => peer_flagged(self.peers@, known_flags(self.peers@, ip@)) is None,
            },
    {
        let mut flags: Vec<bool> = Vec::new();
        let mut i: usize = 0;
        while i < self.peers.len()
            invariant
                i <= self.peers@.len(),
                flags@.len() == i,
                forall|j: int| 0 <= j < i ==> flags@[j] == is_known_by(self.peers@[j], ip@),
            decreases self.peers@.len() - i,
        {
            flags.push(self.peers[i].known_by(ip));
            i += 1;
        }
        assert(flags@ =~= known_flags(self.peers@, ip@));
        self.first_flagged(&flags)
    }
}

/// The peer that is found by its name is one of the peers and has that name, and none
/// before it has; likewise by flags.
pub proof fn law_first_peer(peers: Seq<PeerConfig>, name: Seq<char>, flags: Seq<bool>)
    requires
        flags.len() == peers.len(),
    ensures
        match peer_named(peers, name) {
            Some(p) => exists|i: int|
                0 <= i < peers.len() && #[trigger] peers[i] == p && p.name@ == name && (forall|j: int|
                    0 <= j < i ==> (#[trigger] peers[j]).name@ != name),
            None => forall|j: int| 0 <= j < peers.len() ==> (#[trigger] peers[j]).name@ != name,
        },
        match peer_flagged(peers, flags) {
            Some(p) => exists|i: int|
                0 <= i < peers.len() && #[trigger] peers[i] == p && flags[i] && (forall|j: int|
                    0 <= j < i ==> !#[trigger] flags[j]),
            None => forall|j: int| 0 <= j < peers.len() ==> !#[trigger] flags[j],
        },
    decreases peers.len(),
{
    if peers.len() > 0 {
        let rest = peers.drop_first();
        let later = flags.drop_first();
        law_first_peer(rest, name, later);
        assert forall|j: int| 0 < j < peers.len() implies #[trigger] peers[j] == rest[j - 1] by {}
        assert forall|j: int| 0 < j < peers.len() implies #[trigger] flags[j] == later[j - 1] by {}
        if peers[0].name@ != name {
            if let Some(p) = peer_named(rest, name) {
                let i = choose|i: int|
                    0 <= i < rest.len() && #[trigger] rest[i] == p && p.name@ == name && (forall|
                        j: int,
                    |
                        0 <= j < i ==> (#[trigger] rest[j]).name@ != name);
                assert(peers[i + 1] == p);
            }
        }
        if !flags[0] {
            if let Some(p) = peer_flagged(rest, later) {
                let i = choose|i: int|
                    0 <= i < rest.len() && #[trigger] rest[i] == p && later[i] && (forall|j: int|
                        0 <= j < i ==> !#[trigger] later[j]);
                assert(peers[i + 1] == p);
            }
        }
    }
}

/// A peer is known by its own host and by every address that its host or one of its further
/// entries covers, in whatever place that entry stands, and by no other; a peer without any
/// entry is never known.
pub proof fn law_known(peer: PeerConfig, ip: Seq<char>, i: int)
    ensures
        peer.host matches Some(host) ==> is_known_by(peer, host@),
        peer.host matches Some(host) ==> address_covered(host@, ip) ==> is_known_by(peer, ip),
        0 <= i < peer.hosts@.len() && address_covered(peer.hosts@[i]@, ip) ==> is_known_by(
            peer,
            ip,
        ),
        peer.host is None && peer.hosts@.len() == 0 ==> !is_known_by(peer, ip),
        is_known_by(peer, ip) ==> (peer.host matches Some(host) && (host@ == ip
            || address_covered(host@, ip))) || exists|k: int|
            0 <= k < peer.hosts@.len() && address_covered((#[trigger] peer.hosts@[k])@, ip),
{
}

/// The peer at an address is the first of those that are known by it.
pub proof fn law_peer_at(peers: Seq<PeerConfig>, ip: Seq<char>)
    ensures
        match peer_flagged(peers, known_flags(peers, ip)) {
            Some(p) => exists|i: int|
                0 <= i < peers.len() && #[trigger] peers[i] == p && is_known_by(p, ip) && (forall|
                    j: int,
                |
                    0 <= j < i ==> !is_known_by(#[trigger] peers[j], ip)),
            None => forall|j: int|
                0 <= j < peers.len() ==> !is_known_by(#[trigger] peers[j], ip),
        },
{
    let flags = known_flags(peers, ip);
    law_first_peer(peers, seq![], flags);
    if let Some(p) = peer_flagged(peers, flags) {
        let i = choose|i: int|
            0 <= i < peers.len() && #[trigger] peers[i] == p && flags[i] && (forall|j: int|
                0 <= j < i ==> !#[trigger] flags[j]);
        assert(peers[i] == p && flags[i] == is_known_by(peers[i], ip));
        assert forall|j: int| 0 <= j < i implies !is_known_by(#[trigger] peers[j], ip) by {
            assert(!flags[j]);
        }
    } else {
        assert forall|j: int| 0 <= j < peers.len() implies !is_known_by(
            #[trigger] peers[j],
            ip,
        ) by {
            assert(!flags[j]);
        }
    }
}

} // verus!
