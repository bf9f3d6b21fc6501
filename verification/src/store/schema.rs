//! The entity families and what the store knows of each: its optional
//! attributes with their kinds, and the families of its parents.

use crate::text::same_text;
use vstd::prelude::*;

verus! {

/// The number of entity families.
pub const FAMILIES: usize = 14;

/// An entity family. A family stands behind the families of its parents.
#[derive(Clone, Copy, PartialEq, Eq, Debug, Hash, Structural)]
pub enum Family {
    Domain,
    Subdomain,
    IpAddr,
    SubdomainIpAddr,
    Url,
    Email,
    PhoneNumber,
    Device,
    Network,
    NetworkDevice,
    Account,
    Breach,
    BreachEmail,
    Image,
}

/// The kind of value that a column holds.
#[derive(Clone, Copy, PartialEq, Eq, Debug, Hash, Structural)]
pub enum Kind {
    Integer,
    Text,
    Boolean,
    /// A single-precision number, held as its IEEE-754 bits.
    Real,
}

impl Family {
    /// The place of the family among the families.
    pub open spec fn place(self) -> int {
        match self {
            Family::Domain => 0,
            Family::Subdomain => 1,
            Family::IpAddr => 2,
            Family::SubdomainIpAddr => 3,
            Family::Url => 4,
            Family::Email => 5,
            Family::PhoneNumber => 6,
            Family::Device => 7,
            Family::Network => 8,
            Family::NetworkDevice => 9,
            Family::Account => 10,
            Family::Breach => 11,
            Family::BreachEmail => 12,
            Family::Image => 13,
        }
    }

    /// The family at a place.
    pub open spec fn at(place: int) -> Family {
        if place == 0 {
            Family::Domain
        } else if place == 1 {
            Family::Subdomain
        } else if place == 2 {
            Family::IpAddr
        } else if place == 3 {
            Family::SubdomainIpAddr
        } else if place == 4 {
            Family::Url
        } else if place == 5 {
            Family::Email
        } else if place == 6 {
            Family::PhoneNumber
        } else if place == 7 {
            Family::Device
        } else if place == 8 {
            Family::Network
        } else if place == 9 {
            Family::NetworkDevice
        } else if place == 10 {
            Family::Account
        } else if place == 11 {
            Family::Breach
        } else if place == 12 {
            Family::BreachEmail
        } else {
            Family::Image
        }
    }

    /// The families of the parents of a row, in the order in which the row
    /// names them.
    pub open spec fn parent_families(self) -> Seq<Family> {
        match self {
            Family::Subdomain => seq![Family::Domain],
            Family::SubdomainIpAddr => seq![Family::Subdomain, Family::IpAddr],
            Family::Url => seq![Family::Subdomain],
            Family::NetworkDevice => seq![Family::Network, Family::Device],
            Family::BreachEmail => seq![Family::Breach, Family::Email],
            _ => Seq::empty(),
        }
    }

    /// The kinds of the optional attributes of a row, in order.
    pub open spec fn kinds(self) -> Seq<Kind> {
        match self {
            Family::Domain => Seq::empty(),
            Family::Subdomain => seq![Kind::Boolean],
            Family::IpAddr => seq![Kind::Text, Kind::Integer, Kind::Text],
            Family::SubdomainIpAddr => Seq::empty(),
            Family::Url => seq![Kind::Integer, Kind::Text, Kind::Text],
            Family::Email => seq![Kind::Boolean],
            Family::PhoneNumber => seq![Kind::Boolean, Kind::Text, Kind::Text],
            Family::Device => seq![Kind::Text, Kind::Text, Kind::Text],
            Family::Network => seq![Kind::Real, Kind::Real],
            Family::NetworkDevice => seq![Kind::Text, Kind::Text],
            Family::Account => seq![Kind::Text, Kind::Text],
            Family::Breach => Seq::empty(),
            Family::BreachEmail => seq![Kind::Text],
            Family::Image => seq![Kind::Text, Kind::Integer, Kind::Integer, Kind::Real, Kind::Real],
        }
    }

    /// The names of the optional attributes of a row, in order.
    pub open spec fn attribute_names(self) -> Seq<Seq<char>> {
        match self {
            Family::Domain => Seq::empty(),
            Family::Subdomain => seq!["resolvable"@],
            Family::IpAddr => seq!["country"@, "asn"@, "description"@],
            Family::SubdomainIpAddr => Seq::empty(),
            Family::Url => seq!["status"@, "body"@, "title"@],
            Family::Email => seq!["valid"@],
            Family::PhoneNumber => seq!["valid"@, "name"@, "country"@],
            Family::Device => seq!["vendor"@, "hostname"@, "last_seen"@],
            Family::Network => seq!["latitude"@, "longitude"@],
            Family::NetworkDevice => seq!["ipaddr"@, "last_seen"@],
            Family::Account => seq!["url"@, "last_seen"@],
            Family::Breach => Seq::empty(),
            Family::BreachEmail => seq!["password"@],
            Family::Image => seq!["mime"@, "width"@, "height"@, "latitude"@, "longitude"@],
        }
    }

    /// The names of the columns that hold the ids of the parents, in order.
    pub open spec fn parent_names(self) -> Seq<Seq<char>> {
        match self {
            Family::Subdomain => seq!["domain_id"@],
            Family::SubdomainIpAddr => seq!["subdomain_id"@, "ip_addr_id"@],
            Family::Url => seq!["subdomain_id"@],
            Family::NetworkDevice => seq!["network_id"@, "device_id"@],
            Family::BreachEmail => seq!["breach_id"@, "email_id"@],
            _ => Seq::empty(),
        }
    }

    /// The family that a module names as the source of its seeds.
    pub open spec fn of_source(name: Seq<char>) -> Option<Family> {
        if name == "domains"@ {
            Some(Family::Domain)
        } else if name == "subdomains"@ {
            Some(Family::Subdomain)
        } else if name == "ipaddrs"@ {
            Some(Family::IpAddr)
        } else if name == "urls"@ {
            Some(Family::Url)
        } else if name == "emails"@ {
            Some(Family::Email)
        } else if name == "phonenumbers"@ {
            Some(Family::PhoneNumber)
        } else if name == "devices"@ {
            Some(Family::Device)
        } else if name == "networks"@ {
            Some(Family::Network)
        } else if name == "accounts"@ {
            Some(Family::Account)
        } else if name == "breaches"@ {
            Some(Family::Breach)
        } else if name == "images"@ {
            Some(Family::Image)
        } else {
            None
        }
    }

    /// The family that a module names as the source of its seeds.
    pub fn from_source(name: &String) -> (r: Option<Family>)
        ensures
            r == Family::of_source(name@),
    {
        if same_text(name, "domains") {
            Some(Family::Domain)
        } else if same_text(name, "subdomains") {
            Some(Family::Subdomain)
        } else if same_text(name, "ipaddrs") {
            Some(Family::IpAddr)
        } else if same_text(name, "urls") {
            Some(Family::Url)
        } else if same_text(name, "emails") {
            Some(Family::Email)
        } else if same_text(name, "phonenumbers") {
            Some(Family::PhoneNumber)
        } else if same_text(name, "devices") {
            Some(Family::Device)
        } else if same_text(name, "networks") {
            Some(Family::Network)
        } else if same_text(name, "accounts") {
            Some(Family::Account)
        } else if same_text(name, "breaches") {
            Some(Family::Breach)
        } else if same_text(name, "images") {
            Some(Family::Image)
        } else {
            None
        }
    }

    /// The place of the family among the families.
    pub fn index(self) -> (r: usize)
        ensures
            r == self.place(),
            r < FAMILIES,
            Family::at(r as int) == self,
    {
        match self {
            Family::Domain => 0,
            Family::Subdomain => 1,
            Family::IpAddr => 2,
            Family::SubdomainIpAddr => 3,
            Family::Url => 4,
            Family::Email => 5,
            Family::PhoneNumber => 6,
            Family::Device => 7,
            Family::Network => 8,
            Family::NetworkDevice => 9,
            Family::Account => 10,
            Family::Breach => 11,
            Family::BreachEmail => 12,
            Family::Image => 13,
        }
    }

    /// The family at a place.
    pub fn from_index(place: usize) -> (r: Family)
        requires
            place < FAMILIES,
        ensures
            r == Family::at(place as int),
            r.place() == place,
    {
        if place == 0 {
            Family::Domain
        } else if place == 1 {
            Family::Subdomain
        } else if place == 2 {
            Family::IpAddr
        } else if place == 3 {
            Family::SubdomainIpAddr
        } else if place == 4 {
            Family::Url
        } else if place == 5 {
            Family::Email
        } else if place == 6 {
            Family::PhoneNumber
        } else if place == 7 {
            Family::Device
        } else if place == 8 {
            Family::Network
        } else if place == 9 {
            Family::NetworkDevice
        } else if place == 10 {
            Family::Account
        } else if place == 11 {
            Family::Breach
        } else if place == 12 {
            Family::BreachEmail
        } else {
            Family::Image
        }
    }

    /// The families of the parents of a row.
    pub fn parents(self) -> (r: Vec<Family>)
        ensures
            r@ == self.parent_families(),
    {
        let r = match self {
            Family::Subdomain => vec![Family::Domain],
            Family::SubdomainIpAddr => vec![Family::Subdomain, Family::IpAddr],
            Family::Url => vec![Family::Subdomain],
            Family::NetworkDevice => vec![Family::Network, Family::Device],
            Family::BreachEmail => vec![Family::Breach, Family::Email],
            _ => Vec::new(),
        };
        assert(r@ =~= self.parent_families());
        r
    }

    /// The kinds of the optional attributes of a row.
    pub fn attribute_kinds(self) -> (r: Vec<Kind>)
        ensures
            r@ == self.kinds(),
    {
        let r = match self {
            Family::Domain => Vec::new(),
            Family::Subdomain => vec![Kind::Boolean],
            Family::IpAddr => vec![Kind::Text, Kind::Integer, Kind::Text],
            Family::SubdomainIpAddr => Vec::new(),
            Family::Url => vec![Kind::Integer, Kind::Text, Kind::Text],
            Family::Email => vec![Kind::Boolean],
            Family::PhoneNumber => vec![Kind::Boolean, Kind::Text, Kind::Text],
            Family::Device => vec![Kind::Text, Kind::Text, Kind::Text],
            Family::Network => vec![Kind::Real, Kind::Real],
            Family::NetworkDevice => vec![Kind::Text, Kind::Text],
            Family::Account => vec![Kind::Text, Kind::Text],
            Family::Breach => Vec::new(),
            Family::BreachEmail => vec![Kind::Text],
            Family::Image => vec![
                Kind::Text,
                Kind::Integer,
                Kind::Integer,
                Kind::Real,
                Kind::Real,
            ],
        };
        assert(r@ =~= self.kinds());
        r
    }

    /// The names of the optional attributes of a row.
    pub fn attributes(self) -> (r: Vec<&'static str>)
        ensures
            r@.len() == self.attribute_names().len(),
            r@.len() == self.kinds().len(),
            forall|i: int| 0 <= i < r@.len() ==> (#[trigger] r@[i])@ == self.attribute_names()[i],
    {
        match self {
            Family::Domain => Vec::new(),
            Family::Subdomain => vec!["resolvable"],
            Family::IpAddr => vec!["country", "asn", "description"],
            Family::SubdomainIpAddr => Vec::new(),
            Family::Url => vec!["status", "body", "title"],
            Family::Email => vec!["valid"],
            Family::PhoneNumber => vec!["valid", "name", "country"],
            Family::Device => vec!["vendor", "hostname", "last_seen"],
            Family::Network => vec!["latitude", "longitude"],
            Family::NetworkDevice => vec!["ipaddr", "last_seen"],
            Family::Account => vec!["url", "last_seen"],
            Family::Breach => Vec::new(),
            Family::BreachEmail => vec!["password"],
            Family::Image => vec!["mime", "width", "height", "latitude", "longitude"],
        }
    }

    /// The names of the columns that hold the ids of the parents.
    pub fn parent_columns(self) -> (r: Vec<&'static str>)
        ensures
            r@.len() == self.parent_names().len(),
            r@.len() == self.parent_families().len(),
            forall|i: int| 0 <= i < r@.len() ==> (#[trigger] r@[i])@ == self.parent_names()[i],
    {
        match self {
            Family::Subdomain => vec!["domain_id"],
            Family::SubdomainIpAddr => vec!["subdomain_id", "ip_addr_id"],
            Family::Url => vec!["subdomain_id"],
            Family::NetworkDevice => vec!["network_id", "device_id"],
            Family::BreachEmail => vec!["breach_id", "email_id"],
            _ => Vec::new(),
        }
    }

    /// Every parent's family stands before the family itself.
    pub proof fn lemma_parents_precede(self)
        ensures
            forall|p: int|
                0 <= p < self.parent_families().len() ==> 0 <= (
                #[trigger] self.parent_families()[p]).place() < self.place(),
            0 <= self.place() < FAMILIES,
            Family::at(self.place()) == self,
    {
    }
}

} // verus!
