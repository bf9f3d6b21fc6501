//! Networks: the family whose rows are keyed by a CIDR block or an SSID and
//! may know the place of the network, as a latitude and a longitude.

use crate::error::Error;
use crate::store::filter::{holds, Column, Filter, Literal, Op};
use crate::store::row::{
    cells, changes, dirty, rows, Datum, DatumView, NewRow, NewRowView, Row, RowView, Update,
    UpdateView,
};
use crate::store::schema::Family;
use crate::store::{id_is, parent_is, Database, DatabaseView};
use vstd::prelude::*;

verus! {

/// A network of the store. A coordinate is a single-precision number, held
/// as its IEEE-754 bits; two coordinates are the same when their bits are.
#[derive(Clone, PartialEq, Eq, Debug)]
pub struct Network {
    pub id: i32,
    pub value: String,
    pub unscoped: bool,
    pub latitude: Option<u32>,
    pub longitude: Option<u32>,
}

/// A network as it is printed: its value.
#[derive(Clone, PartialEq, Eq, Debug)]
pub struct PrintableNetwork {
    value: String,
}

/// A device as it is printed: its value.
#[derive(Clone, PartialEq, Eq, Debug)]
pub struct PrintableDevice {
    value: String,
}

/// A network with the devices that were seen in it.
#[derive(Clone, PartialEq, Eq, Debug)]
pub struct DetailedNetwork {
    id: i32,
    value: String,
    unscoped: bool,
    latitude: Option<u32>,
    longitude: Option<u32>,
    devices: Vec<PrintableDevice>,
}

/// A network to insert, with a borrowed value.
#[derive(Clone, PartialEq, Eq, Debug)]
pub struct NewNetwork<'a> {
    pub value: &'a str,
    pub latitude: Option<u32>,
    pub longitude: Option<u32>,
}

/// A network to insert.
#[derive(Clone, PartialEq, Eq, Debug)]
pub struct NewNetworkOwned {
    pub value: String,
    pub latitude: Option<u32>,
    pub longitude: Option<u32>,
}

/// What a script hands over to insert a network.
pub type InsertNetwork = NewNetworkOwned;

/// An update of a network: a coordinate that is `None` is left as it is.
#[derive(Clone, PartialEq, Eq, Debug)]
pub struct NetworkUpdate {
    pub id: i32,
    pub latitude: Option<u32>,
    pub longitude: Option<u32>,
}

/// A coordinate as an attribute of a row.
pub open spec fn coordinate_of(x: Option<u32>) -> Option<DatumView> {
    match x {
        Some(bits) => Some(DatumView::Real(bits)),
        None => None,
    }
}

/// The attributes of a row of a network.
pub open spec fn coordinates(latitude: Option<u32>, longitude: Option<u32>) -> Seq<
    Option<DatumView>,
> {
    seq![coordinate_of(latitude), coordinate_of(longitude)]
}

/// Whether a row has the form of a row of a network: no parents, and two
/// attributes, each unknown or a coordinate.
pub open spec fn is_network(row: RowView) -> bool {
    &&& row.parents.len() == 0
    &&& row.attrs.len() == 2
    &&& row.attrs[0] matches Some(d) ==> d is Real
    &&& row.attrs[1] matches Some(d) ==> d is Real
}

impl View for Network {
    type V = RowView;

    open spec fn view(&self) -> RowView {
        RowView {
            id: self.id,
            value: self.value@,
            unscoped: self.unscoped,
            parents: Seq::empty(),
            attrs: coordinates(self.latitude, self.longitude),
        }
    }
}

impl<'a> View for NewNetwork<'a> {
    type V = NewRowView;

    open spec fn view(&self) -> NewRowView {
        NewRowView {
            value: self.value@,
            parents: Seq::empty(),
            attrs: coordinates(self.latitude, self.longitude),
        }
    }
}

impl View for NewNetworkOwned {
    type V = NewRowView;

    open spec fn view(&self) -> NewRowView {
        NewRowView {
            value: self.value@,
            parents: Seq::empty(),
            attrs: coordinates(self.latitude, self.longitude),
        }
    }
}

impl View for NetworkUpdate {
    type V = UpdateView;

    open spec fn view(&self) -> UpdateView {
        UpdateView { id: self.id, attrs: coordinates(self.latitude, self.longitude) }
    }
}

impl View for PrintableNetwork {
    type V = Seq<char>;

    closed spec fn view(&self) -> Seq<char> {
        self.value@
    }
}

impl View for PrintableDevice {
    type V = Seq<char>;

    closed spec fn view(&self) -> Seq<char> {
        self.value@
    }
}

/// The mathematical value of a [`DetailedNetwork`].
pub struct DetailedNetworkView {
    /// The network, as its row.
    pub network: RowView,
    /// The values of the devices that were seen in it.
    pub devices: Seq<Seq<char>>,
}

impl View for DetailedNetwork {
    type V = DetailedNetworkView;

    closed spec fn view(&self) -> DetailedNetworkView {
        DetailedNetworkView {
            network: RowView {
                id: self.id,
                value: self.value@,
                unscoped: self.unscoped,
                parents: Seq::empty(),
                attrs: coordinates(self.latitude, self.longitude),
            },
            devices: device_values(self.devices@),
        }
    }
}

/// The views of a list of networks.
pub open spec fn networks(v: Seq<Network>) -> Seq<RowView> {
    v.map_values(|n: Network| n@)
}

/// The values of a list of printable devices.
pub open spec fn device_values(v: Seq<PrintableDevice>) -> Seq<Seq<char>> {
    v.map_values(|d: PrintableDevice| d@)
}

impl DatabaseView {
    /// The devices that were seen in the network `id`: for each link of the
    /// network to a device, in the order of the links, the row of the device.
    pub open spec fn devices_of(self, id: i32) -> Seq<RowView> {
        self.selected(Family::NetworkDevice, parent_is(0, id)).map_values(
            |link: RowView| self.row_by_id(Family::Device, link.parents[1])->Ok_0,
        )
    }
}

fn coordinate(c: &Option<Datum>) -> (r: Option<u32>)
    requires
        crate::store::row::cell(*c) matches Some(d) ==> d is Real,
    ensures
        coordinate_of(r) == crate::store::row::cell(*c),
{
    match c {
        Some(Datum::Real(bits)) => Some(*bits),
        _ => None,
    }
}

fn attribute(x: Option<u32>) -> (r: Option<Datum>)
    ensures
        crate::store::row::cell(r) == coordinate_of(x),
{
    match x {
        Some(bits) => Some(Datum::Real(bits)),
        None => None,
    }
}

fn attributes(latitude: Option<u32>, longitude: Option<u32>) -> (r: Vec<Option<Datum>>)
    ensures
        cells(r@) == coordinates(latitude, longitude),
{
    let mut attrs: Vec<Option<Datum>> = Vec::new();
    attrs.push(attribute(latitude));
    attrs.push(attribute(longitude));
    assert(cells(attrs@) =~= coordinates(latitude, longitude));
    attrs
}

/// The rows of a table of networks have the form of a network.
proof fn lemma_networks(db: DatabaseView, i: int)
    requires
        db.wf(),
        0 <= i < db.table(Family::Network).rows.len(),
    ensures
        is_network(db.table(Family::Network).rows[i]),
{
    Family::Network.lemma_parents_precede();
    assert(db.tables[Family::Network.place()].ok(Family::Network));
    let row = db.table(Family::Network).rows[i];
    assert(row.attrs[0] matches Some(d) ==> d.kind() == Family::Network.kinds()[0]);
    assert(row.attrs[1] matches Some(d) ==> d.kind() == Family::Network.kinds()[1]);
}

impl Network {
    /// The network that a row of the family holds.
    fn from_row(row: &Row) -> (r: Network)
        requires
            is_network(row@),
        ensures
            r@ == row@,
    {
        assert(cells(row.attrs@)[0] == crate::store::row::cell(row.attrs@[0]));
        assert(cells(row.attrs@)[1] == crate::store::row::cell(row.attrs@[1]));
        let n = Network {
            id: row.id,
            value: row.value.clone(),
            unscoped: row.unscoped,
            latitude: coordinate(&row.attrs[0]),
            longitude: coordinate(&row.attrs[1]),
        };
        assert(n@.attrs =~= row@.attrs);
        assert(n@.parents =~= row@.parents);
        n
    }

    fn from_rows(found: &Vec<Row>) -> (r: Vec<Network>)
        requires
            forall|i: int| 0 <= i < found.len() ==> is_network(#[trigger] rows(found@)[i]),
        ensures
            networks(r@) == rows(found@),
    {
        let mut out: Vec<Network> = Vec::new();
        let mut i: usize = 0;
        while i < found.len()
            invariant
                i <= found.len(),
                forall|i: int| 0 <= i < found.len() ==> is_network(#[trigger] rows(found@)[i]),
                networks(out@) == rows(found@).take(i as int),
            decreases found.len() - i,
        {
            assert(rows(found@)[i as int] == found@[i as int]@);
            let n = Network::from_row(&found[i]);
            let ghost prev = out@;
            out.push(n);
            assert(networks(out@) =~= networks(prev).push(n@));
            assert(rows(found@).take(i + 1) =~= rows(found@).take(i as int).push(
                rows(found@)[i as int],
            ));
            i += 1;
        }
        assert(rows(found@).take(i as int) =~= rows(found@));
        out
    }

    /// The text that stands for the network: its value.
    pub fn to_string(&self) -> (r: String)
        ensures
            r@ == self.value@,
    {
        self.value.clone()
    }

    /// The id of the network.
    pub fn id(&self) -> (r: i32)
        ensures
            r == self.id,
    {
        self.id
    }

    /// The value of the network.
    pub fn value(&self) -> (r: &str)
        ensures
            r@ == self.value@,
    {
        self.value.as_str()
    }

    /// Whether the network is in scope.
    pub fn scoped(&self) -> (r: bool)
        ensures
            r == !self.unscoped,
    {
        !self.unscoped
    }

    /// Every network.
    pub fn list(db: &Database) -> (r: Result<Vec<Network>, Error>)
        requires
            db.wf(),
        ensures
            r matches Ok(v) && networks(v@) == db@.table(Family::Network).rows,
    {
        let found = db.list(Family::Network)?;
        proof {
            assert forall|i: int| 0 <= i < found.len() implies is_network(
                #[trigger] rows(found@)[i],
            ) by {
                lemma_networks(db@, i);
            }
        }
        Ok(Network::from_rows(&found))
    }

    /// The networks that match the filter.
    pub fn filter(db: &Database, filter: &Filter) -> (r: Result<Vec<Network>, Error>)
        requires
            db.wf(),
        ensures
            r matches Ok(v) && networks(v@) == db@.selected(Family::Network, filter@),
    {
        let found = db.filter(Family::Network, filter)?;
        proof {
            let all = db@.table(Family::Network).rows;
            crate::store::lemma_filter_rows(all, |r: RowView| holds(filter@, r));
            assert forall|i: int| 0 <= i < found.len() implies is_network(
                #[trigger] rows(found@)[i],
            ) by {
                let row = rows(found@)[i];
                assert(all.contains(row));
                let j = choose|j: int| 0 <= j < all.len() && all[j] == row;
                lemma_networks(db@, j);
            }
        }
        Ok(Network::from_rows(&found))
    }

    /// Deletes the networks that match the filter, with what was seen in them.
    pub fn delete(db: &mut Database, filter: &Filter) -> (r: Result<usize, Error>)
        requires
            old(db).wf(),
        ensures
            final(db).wf(),
            r matches Ok(n) && n == old(db)@.deleted(Family::Network, filter@).0,
            final(db)@ == old(db)@.deleted(Family::Network, filter@).1,
    {
        db.delete(Family::Network, filter)
    }

    /// Deletes the network with the id `my_id`, with what was seen in it.
    pub fn delete_id(db: &mut Database, my_id: i32) -> (r: Result<usize, Error>)
        requires
            old(db).wf(),
        ensures
            final(db).wf(),
            r matches Ok(n) && n == old(db)@.deleted(Family::Network, id_is(my_id)).0,
            final(db)@ == old(db)@.deleted(Family::Network, id_is(my_id)).1,
    {
        db.delete_id(Family::Network, my_id)
    }

    /// The network with the id `my_id`, or `NotFound`.
    pub fn by_id(db: &Database, my_id: i32) -> (r: Result<Network, Error>)
        requires
            db.wf(),
        ensures
            match db@.row_by_id(Family::Network, my_id) {
                Ok(row) => r matches Ok(found) && found@ == row,
                Err(e) => r == Err::<Network, Error>(e),
            },
    {
        let row = db.by_id(Family::Network, my_id)?;
        proof {
            crate::find::lemma_first_is_first(
                db@.table(Family::Network).rows,
                |r: RowView| r.id == my_id,
            );
            lemma_networks(db@, db@.table(Family::Network).by_id(my_id)->0);
        }
        Ok(Network::from_row(&row))
    }

    /// The network with the value `query`, if there is one.
    pub fn get_opt(db: &Database, query: &str) -> (r: Result<Option<Network>, Error>)
        requires
            db.wf(),
        ensures
            match db@.row_by_value(Family::Network, query@) {
                Some(row) => r matches Ok(Some(found)) && found@ == row,
                None => r == Ok::<Option<Network>, Error>(None),
            },
    {
        match db.get_opt(Family::Network, query)? {
            Some(row) => {
                proof {
                    crate::find::lemma_first_is_first(
                        db@.table(Family::Network).rows,
                        |r: RowView| r.value == query@,
                    );
                    lemma_networks(db@, db@.table(Family::Network).by_value(query@)->0);
                }
                Ok(Some(Network::from_row(&row)))
            },
            None => Ok(None),
        }
    }

    /// The network with the value `query`, or `NotFound`.
    pub fn get(db: &Database, query: &str) -> (r: Result<Network, Error>)
        requires
            db.wf(),
        ensures
            match db@.row_by_value(Family::Network, query@) {
                Some(row) => r matches Ok(found) && found@ == row,
                None => r == Err::<Network, Error>(Error::NotFound),
            },
    {
        match Network::get_opt(db, query)? {
            Some(n) => Ok(n),
            None => Err(Error::NotFound),
        }
    }

    /// Puts the networks that match the filter in scope.
    pub fn scope(db: &mut Database, filter: &Filter) -> (r: Result<usize, Error>)
        requires
            old(db).wf(),
        ensures
            final(db).wf(),
            r matches Ok(n) && n == old(db)@.rescoped(Family::Network, filter@, false).0,
            final(db)@ == old(db)@.rescoped(Family::Network, filter@, false).1,
    {
        db.scope(Family::Network, filter)
    }

    /// Puts the networks that match the filter out of scope.
    pub fn noscope(db: &mut Database, filter: &Filter) -> (r: Result<usize, Error>)
        requires
            old(db).wf(),
        ensures
            final(db).wf(),
            r matches Ok(n) && n == old(db)@.rescoped(Family::Network, filter@, true).0,
            final(db)@ == old(db)@.rescoped(Family::Network, filter@, true).1,
    {
        db.noscope(Family::Network, filter)
    }

    /// The devices that were seen in the network: the row of the device of
    /// each of its links, in the order of the links.
    pub fn devices(&self, db: &Database) -> (r: Result<Vec<Row>, Error>)
        requires
            db.wf(),
        ensures
            r matches Ok(v) && rows(v@) == db@.devices_of(self.id),
    {
        let by_network = Filter::Cmp(Column::Parent(0), Op::Eq, Literal::Int(self.id as i64));
        assert(by_network@ == parent_is(0, self.id));
        let links = db.filter(Family::NetworkDevice, &by_network)?;
        let ghost wanted = db@.devices_of(self.id);
        let ghost all = db@.table(Family::NetworkDevice).rows;
        proof {
            crate::store::lemma_filter_rows(all, |r: RowView| holds(parent_is(0, self.id), r));
        }
        let mut out: Vec<Row> = Vec::new();
        let mut i: usize = 0;
        assert(rows(out@) =~= wanted.take(0));
        while i < links.len()
            invariant
                i <= links.len(),
                db.wf(),
                all == db@.table(Family::NetworkDevice).rows,
                wanted == db@.devices_of(self.id),
                rows(links@) == db@.selected(Family::NetworkDevice, parent_is(0, self.id)),
                forall|j: int| 0 <= j < links.len() ==> all.contains(#[trigger] rows(links@)[j]),
                rows(out@) == wanted.take(i as int),
            decreases links.len() - i,
        {
            let ghost link = rows(links@)[i as int];
            assert(link == links@[i as int]@);
            proof {
                let j = choose|j: int| 0 <= j < all.len() && all[j] == link;
                Family::NetworkDevice.lemma_parents_precede();
                assert(db@.tables[Family::NetworkDevice.place()].ok(Family::NetworkDevice)
                    && db@.linked(Family::NetworkDevice));
                assert(db@.parents_present(Family::NetworkDevice, all[j].parents));
                assert(Family::NetworkDevice.parent_families()[1] == Family::Device);
                assert(db@.table(Family::Device).has_id(link.parents[1]));
                let k = choose|k: int|
                    0 <= k < db@.table(Family::Device).rows.len() && (#[trigger] db@.table(
                        Family::Device,
                    ).rows[k]).id == link.parents[1];
                crate::find::lemma_first_exists(
                    db@.table(Family::Device).rows,
                    |r: RowView| r.id == link.parents[1],
                    k,
                );
            }
            assert(link.parents.len() == 2);
            let device = db.by_id(Family::Device, links[i].parents[1])?;
            let ghost prev = out@;
            out.push(device);
            assert(rows(out@) =~= rows(prev).push(device@));
            assert(wanted.take(i + 1) =~= wanted.take(i as int).push(wanted[i as int]));
            i += 1;
        }
        assert(wanted.take(i as int) =~= wanted);
        Ok(out)
    }

    /// The network as it is printed.
    pub fn printable(&self, _db: &Database) -> (r: Result<PrintableNetwork, Error>)
        ensures
            r matches Ok(p) && p@ == self.value@,
    {
        Ok(PrintableNetwork { value: self.value.clone() })
    }

    /// The network with the devices that were seen in it.
    pub fn detailed(&self, db: &Database) -> (r: Result<DetailedNetwork, Error>)
        requires
            db.wf(),
        ensures
            r matches Ok(d) && d@.network == self@ && d@.devices == db@.devices_of(
                self.id,
            ).map_values(|row: RowView| row.value),
    {
        let found = self.devices(db)?;
        let ghost wanted = db@.devices_of(self.id).map_values(|row: RowView| row.value);
        let mut devices: Vec<PrintableDevice> = Vec::new();
        let mut i: usize = 0;
        assert(device_values(devices@) =~= wanted.take(0));
        while i < found.len()
            invariant
                i <= found.len(),
                rows(found@) == db@.devices_of(self.id),
                wanted == db@.devices_of(self.id).map_values(|row: RowView| row.value),
                device_values(devices@) == wanted.take(i as int),
            decreases found.len() - i,
        {
            assert(rows(found@)[i as int] == found@[i as int]@);
            let device = PrintableDevice { value: found[i].value.clone() };
            let ghost prev = devices@;
            devices.push(device);
            assert(device_values(devices@) =~= device_values(prev).push(device@));
            assert(wanted.take(i + 1) =~= wanted.take(i as int).push(wanted[i as int]));
            i += 1;
        }
        assert(wanted.take(i as int) =~= wanted);
        Ok(
            DetailedNetwork {
                id: self.id,
                value: self.value.clone(),
                unscoped: self.unscoped,
                latitude: self.latitude,
                longitude: self.longitude,
                devices,
            },
        )
    }
}

impl PrintableNetwork {
    /// The network as it is printed: its value, quoted.
    pub fn to_string(&self) -> (r: String)
        ensures
            r@ == crate::text::quoted(self@),
    {
        crate::text::quote(self.value.as_str())
    }

    /// The value of the network.
    pub fn value(&self) -> (r: &str)
        ensures
            r@ == self@,
    {
        self.value.as_str()
    }
}

impl PrintableDevice {
    /// The device as it is printed: its value, quoted.
    pub fn to_string(&self) -> (r: String)
        ensures
            r@ == crate::text::quoted(self@),
    {
        crate::text::quote(self.value.as_str())
    }

    /// The value of the device.
    pub fn value(&self) -> (r: &str)
        ensures
            r@ == self@,
    {
        self.value.as_str()
    }
}

impl DetailedNetwork {
    /// Whether the network is in scope.
    pub fn scoped(&self) -> (r: bool)
        ensures
            r == !self@.network.unscoped,
    {
        !self.unscoped
    }

    /// The id of the network.
    pub fn id(&self) -> (r: i32)
        ensures
            r == self@.network.id,
    {
        self.id
    }

    /// The value of the network.
    pub fn value(&self) -> (r: &str)
        ensures
            r@ == self@.network.value,
    {
        self.value.as_str()
    }

    /// The latitude of the network, where it is known.
    pub fn latitude(&self) -> (r: Option<u32>)
        ensures
            coordinate_of(r) == self@.network.attrs[0],
    {
        self.latitude
    }

    /// The longitude of the network, where it is known.
    pub fn longitude(&self) -> (r: Option<u32>)
        ensures
            coordinate_of(r) == self@.network.attrs[1],
    {
        self.longitude
    }

    /// The devices that were seen in the network, as they are printed.
    pub fn children(&self) -> (r: &Vec<PrintableDevice>)
        ensures
            device_values(r@) == self@.devices,
    {
        &self.devices
    }
}

impl<'a> NewNetwork<'a> {
    /// The value of the network.
    pub fn value(&self) -> (r: &str)
        ensures
            r@ == self.value@,
    {
        self.value
    }

    /// Inserts the network; one whose value is there already is left as it is.
    pub fn insert(&self, db: &mut Database) -> (r: Result<(), Error>)
        requires
            old(db).wf(),
        ensures
            final(db).wf(),
            match old(db)@.inserted(Family::Network, self@) {
                Ok((_, next)) => r is Ok && final(db)@ == next,
                Err(e) => r == Err::<(), Error>(e) && final(db)@ == old(db)@,
            },
    {
        let new = NewRow {
            value: self.value.to_owned(),
            parents: Vec::new(),
            attrs: attributes(self.latitude, self.longitude),
        };
        assert(new@.parents =~= self@.parents);
        assert(new@ == self@);
        db.insert(Family::Network, new)?;
        Ok(())
    }

    /// The update that an upsert of this record makes to `existing`: each
    /// coordinate that is known and differs from the stored one.
    pub fn upsert(self, existing: &Network) -> (r: NetworkUpdate)
        ensures
            r.id == existing.id,
            r@.attrs == changes(self@.attrs, existing@.attrs),
    {
        let update = NetworkUpdate {
            id: existing.id,
            latitude: upsert_opt(self.latitude, &existing.latitude),
            longitude: upsert_opt(self.longitude, &existing.longitude),
        };
        assert(update@.attrs =~= changes(self@.attrs, existing@.attrs));
        update
    }
}

/// What an upsert writes to a coordinate: the incoming one where it is
/// known and differs from the stored one.
pub fn upsert_opt(incoming: Option<u32>, existing: &Option<u32>) -> (r: Option<u32>)
    ensures
        coordinate_of(r) == crate::store::row::change(
            coordinate_of(incoming),
            coordinate_of(*existing),
        ),
{
    match (incoming, existing) {
        (Some(a), Some(b)) => if a != *b {
            Some(a)
        } else {
            None
        },
        (Some(a), None) => Some(a),
        (None, _) => None,
    }
}

impl NewNetworkOwned {
    /// The network as it is printed.
    pub fn printable(&self, _db: &Database) -> (r: Result<PrintableNetwork, Error>)
        ensures
            r matches Ok(p) && p@ == self.value@,
    {
        Ok(PrintableNetwork { value: self.value.clone() })
    }

    /// The record to insert for what a script handed over.
    pub fn try_into_new(self) -> (r: Result<NewNetworkOwned, Error>)
        ensures
            r == Ok::<NewNetworkOwned, Error>(self),
    {
        Ok(self)
    }

    /// The record as the store takes it.
    pub fn into_row(self) -> (r: NewRow)
        ensures
            r@ == self@,
    {
        let new = NewRow {
            value: self.value,
            parents: Vec::new(),
            attrs: attributes(self.latitude, self.longitude),
        };
        assert(new@.parents =~= self@.parents);
        new
    }
}

impl NetworkUpdate {
    /// Whether the update writes anything.
    pub fn is_dirty(&self) -> (r: bool)
        ensures
            r == (self.latitude is Some || self.longitude is Some),
            r == dirty(self@.attrs),
    {
        proof {
            if self.latitude is Some {
                assert(self@.attrs[0] is Some);
            }
            if self.longitude is Some {
                assert(self@.attrs[1] is Some);
            }
        }
        self.latitude.is_some() || self.longitude.is_some()
    }

    /// The update as the store takes it.
    pub fn generic(self) -> (r: Update)
        ensures
            r@ == self@,
    {
        Update { id: self.id, attrs: attributes(self.latitude, self.longitude) }
    }

    /// Applies the update to the store and returns the id of the network.
    pub fn apply(&self, db: &mut Database) -> (r: Result<i32, Error>)
        requires
            old(db).wf(),
        ensures
            final(db).wf(),
            match old(db)@.updated(Family::Network, self@) {
                Ok((id, next)) => r == Ok::<i32, Error>(id) && final(db)@ == next,
                Err(e) => r == Err::<i32, Error>(e) && final(db)@ == old(db)@,
            },
    {
        let update = Update { id: self.id, attrs: attributes(self.latitude, self.longitude) };
        db.update(Family::Network, &update)
    }

    /// Drops from the update the coordinates that `existing` holds already.
    pub fn changeset(&mut self, existing: &Network)
        ensures
            final(self).id == old(self).id,
            final(self)@.attrs == changes(old(self)@.attrs, existing@.attrs),
    {
        self.latitude = upsert_opt(self.latitude, &existing.latitude);
        self.longitude = upsert_opt(self.longitude, &existing.longitude);
        assert(self@.attrs =~= changes(old(self)@.attrs, existing@.attrs));
    }
}

} // verus!
