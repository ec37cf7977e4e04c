//! The control-plane boxes of a cluster, in the order of their `Ord`:
//! creation time, hostname, address, running flag, uuid.
use vstd::prelude::*;

use crate::sorted::{Duplicate, KeyOrder};
use crate::text::{
    compare_text, lemma_text_lt_irreflexive, lemma_text_lt_total, lemma_text_lt_transitive,
    text_lt, KeyCmp,
};

verus! {

/// An IP address: its version (4 or 6), its bits, and its text form.
#[derive(Clone, Debug, PartialEq, Eq, PartialOrd, Ord, Hash)]
pub struct IpAddress {
    pub version: u8,
    pub bits: u128,
    pub text: String,
}

pub struct IpAddressView {
    pub version: u8,
    pub bits: u128,
    pub text: Seq<char>,
}

impl View for IpAddress {
    type V = IpAddressView;

    open spec fn view(&self) -> IpAddressView {
        IpAddressView { version: self.version, bits: self.bits, text: self.text@ }
    }
}

/// The order of `IpAddr`'s `Ord`: IPv4 first, then by bits.
pub open spec fn ip_lt(a: IpAddressView, b: IpAddressView) -> bool {
    ||| a.version < b.version
    ||| (a.version == b.version && a.bits < b.bits)
    ||| (a.version == b.version && a.bits == b.bits && text_lt(a.text, b.text))
}

pub open spec fn opt_ip_lt(a: Option<IpAddressView>, b: Option<IpAddressView>) -> bool {
    match (a, b) {
        (None, Some(_)) => true,
        (Some(x), Some(y)) => ip_lt(x, y),
        _ => false,
    }
}

pub open spec fn opt_time_lt(a: Option<i128>, b: Option<i128>) -> bool {
    match (a, b) {
        (None, Some(_)) => true,
        (Some(x), Some(y)) => x < y,
        _ => false,
    }
}

/// A control-plane box as the cluster sees it.
#[derive(Clone, Debug, PartialEq, Eq, PartialOrd, Ord, Hash)]
pub struct ClusterBoxState {
    /// Creation time, in nanoseconds since the epoch.
    pub created_at: Option<i128>,
    pub hostname: String,
    pub ip: Option<IpAddress>,
    pub is_running: bool,
    pub uuid: u128,
}

pub struct ClusterBoxStateView {
    pub created_at: Option<i128>,
    pub hostname: Seq<char>,
    pub ip: Option<IpAddressView>,
    pub is_running: bool,
    pub uuid: u128,
}

impl View for ClusterBoxState {
    type V = ClusterBoxStateView;

    open spec fn view(&self) -> ClusterBoxStateView {
        ClusterBoxStateView {
            created_at: self.created_at,
            hostname: self.hostname@,
            ip: match self.ip {
                Some(ip) => Some(ip@),
                None => None,
            },
            is_running: self.is_running,
            uuid: self.uuid,
        }
    }
}

/// The order of `ClusterBoxState`'s `Ord`: field by field.
pub open spec fn box_lt(a: ClusterBoxStateView, b: ClusterBoxStateView) -> bool {
    ||| opt_time_lt(a.created_at, b.created_at)
    ||| (a.created_at == b.created_at && text_lt(a.hostname, b.hostname))
    ||| (a.created_at == b.created_at && a.hostname == b.hostname && opt_ip_lt(a.ip, b.ip))
    ||| (a.created_at == b.created_at && a.hostname == b.hostname && a.ip == b.ip && !a.is_running && b.is_running)
    ||| (a.created_at == b.created_at && a.hostname == b.hostname && a.ip == b.ip && a.is_running == b.is_running && a.uuid < b.uuid)
}

proof fn lemma_ip_lt(a: IpAddressView, b: IpAddressView, c: IpAddressView)
    ensures
        !ip_lt(a, a),
        a == b || ip_lt(a, b) || ip_lt(b, a),
        ip_lt(a, b) && ip_lt(b, c) ==> ip_lt(a, c),
{
    lemma_text_lt_irreflexive(a.text);
    lemma_text_lt_total(a.text, b.text);
    if text_lt(a.text, b.text) && text_lt(b.text, c.text) {
        lemma_text_lt_transitive(a.text, b.text, c.text);
    }
}

proof fn lemma_opt_ip_lt(a: Option<IpAddressView>, b: Option<IpAddressView>, c: Option<IpAddressView>)
    ensures
        !opt_ip_lt(a, a),
        a == b || opt_ip_lt(a, b) || opt_ip_lt(b, a),
        opt_ip_lt(a, b) && opt_ip_lt(b, c) ==> opt_ip_lt(a, c),
{
    match (a, b, c) {
        (Some(x), Some(y), Some(z)) => lemma_ip_lt(x, y, z),
        (Some(x), Some(y), None) => lemma_ip_lt(x, y, y),
        (Some(x), None, _) => lemma_ip_lt(x, x, x),
        (None, Some(y), _) => lemma_ip_lt(y, y, y),
        _ => {},
    }
}

proof fn lemma_box_lt(a: ClusterBoxStateView, b: ClusterBoxStateView, c: ClusterBoxStateView)
    ensures
        !box_lt(a, a),
        a == b || box_lt(a, b) || box_lt(b, a),
        box_lt(a, b) && box_lt(b, c) ==> box_lt(a, c),
{
    lemma_text_lt_irreflexive(a.hostname);
    lemma_text_lt_irreflexive(b.hostname);
    lemma_text_lt_total(a.hostname, b.hostname);
    if text_lt(a.hostname, b.hostname) && text_lt(b.hostname, c.hostname) {
        lemma_text_lt_transitive(a.hostname, b.hostname, c.hostname);
    }
    lemma_opt_ip_lt(a.ip, b.ip, c.ip);
    lemma_opt_ip_lt(b.ip, b.ip, b.ip);
    lemma_opt_ip_lt(a.ip, c.ip, c.ip);
}

impl Duplicate for IpAddress {
    fn duplicate(&self) -> (r: IpAddress) {
        IpAddress { version: self.version, bits: self.bits, text: self.text.clone() }
    }
}

impl Duplicate for ClusterBoxState {
    fn duplicate(&self) -> (r: ClusterBoxState) {
        ClusterBoxState {
            created_at: self.created_at,
            hostname: self.hostname.clone(),
            ip: match &self.ip {
                Some(ip) => Some(ip.duplicate()),
                None => None,
            },
            is_running: self.is_running,
            uuid: self.uuid,
        }
    }
}

fn compare_ip(a: &IpAddress, b: &IpAddress) -> (r: KeyCmp)
    ensures
        (r is Less) == ip_lt(a@, b@),
        (r is Equal) == (a@ == b@),
        (r is Greater) == ip_lt(b@, a@),
{
    proof {
        lemma_ip_lt(a@, b@, b@);
        lemma_ip_lt(b@, a@, a@);
    }
    if a.version < b.version {
        KeyCmp::Less
    } else if a.version > b.version {
        KeyCmp::Greater
    } else if a.bits < b.bits {
        KeyCmp::Less
    } else if a.bits > b.bits {
        KeyCmp::Greater
    } else {
        compare_text(a.text.as_str(), b.text.as_str())
    }
}

impl KeyOrder for ClusterBoxState {
    open spec fn key_lt(a: ClusterBoxStateView, b: ClusterBoxStateView) -> bool {
        box_lt(a, b)
    }

    proof fn lemma_key_lt_irreflexive(a: ClusterBoxStateView) {
        lemma_box_lt(a, a, a);
    }

    proof fn lemma_key_lt_transitive(a: ClusterBoxStateView, b: ClusterBoxStateView, c: ClusterBoxStateView) {
        lemma_box_lt(a, b, c);
    }

    proof fn lemma_key_lt_total(a: ClusterBoxStateView, b: ClusterBoxStateView) {
        lemma_box_lt(a, b, b);
    }

    fn compare_key(&self, other: &ClusterBoxState) -> (r: KeyCmp) {
        proof {
            lemma_box_lt(self@, other@, other@);
            lemma_box_lt(other@, self@, self@);
        }
        match (self.created_at, other.created_at) {
            (None, Some(_)) => {
                return KeyCmp::Less;
            },
            (Some(_), None) => {
                return KeyCmp::Greater;
            },
            (Some(x), Some(y)) => {
                if x < y {
                    return KeyCmp::Less;
                } else if x > y {
                    return KeyCmp::Greater;
                }
            },
            (None, None) => {},
        }
        match compare_text(self.hostname.as_str(), other.hostname.as_str()) {
            KeyCmp::Less => {
                return KeyCmp::Less;
            },
            KeyCmp::Greater => {
                return KeyCmp::Greater;
            },
            KeyCmp::Equal => {},
        }
        match (&self.ip, &other.ip) {
            (None, Some(_)) => {
                return KeyCmp::Less;
            },
            (Some(_), None) => {
                return KeyCmp::Greater;
            },
            (Some(x), Some(y)) => {
                match compare_ip(x, y) {
                    KeyCmp::Less => {
                        return KeyCmp::Less;
                    },
                    KeyCmp::Greater => {
                        return KeyCmp::Greater;
                    },
                    KeyCmp::Equal => {},
                }
            },
            (None, None) => {},
        }
        if !self.is_running && other.is_running {
            KeyCmp::Less
        } else if self.is_running && !other.is_running {
            KeyCmp::Greater
        } else if self.uuid < other.uuid {
            KeyCmp::Less
        } else if self.uuid > other.uuid {
            KeyCmp::Greater
        } else {
            KeyCmp::Equal
        }
    }
}

} // verus!
