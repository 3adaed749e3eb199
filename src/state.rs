use vstd::prelude::*;

use crate::ids::{order_key, order_number};
use crate::msg::OrderItem;
use crate::table::{key_eq, lemma_entries_map_at, lemma_sorted_distinct, Table};

verus! {

/// One part in 10^18 of a whole: the scale of a fee fraction.
pub const FEE_SCALE: u128 = 1_000_000_000_000_000_000;

/// The only denomination in which orders are paid.
pub const NATIVE_DENOM: &'static str = "uxion";

pub struct MenuItem {
    pub id: String,
    pub name: String,
    /// In the smallest unit of the native denomination.
    pub price: u128,
    pub available: bool,
    pub image_uri: String,
}

pub struct Restaurant {
    pub id: String,
    pub owner: String,
    pub name: String,
    pub image_uri: String,
    /// Where the restaurant's share of each order is paid.
    pub restaurant_address: String,
}

pub struct Order {
    pub id: String,
    pub customer: String,
    pub restaurant_id: String,
    pub items: Vec<OrderItem>,
    pub total: u128,
    pub status: OrderStatus,
    pub rider_id: Option<String>,
}

pub struct Rider {
    pub id: String,
    pub name: String,
    pub wallet: String,
    pub is_registered: bool,
}

/// Funds held against one order until its delivery is confirmed.
pub struct Escrow {
    pub order_id: String,
    pub amount: u128,
    pub released: bool,
}

#[derive(Debug, Clone, Copy, PartialEq, Eq, Structural)]
pub enum OrderStatus {
    Created,
    Accepted,
    InDelivery,
    Completed,
    Cancelled,
}

pub struct PlatformConfig {
    pub platform_name: String,
    pub platform_description: String,
    pub owners: Vec<String>,
    /// The platform's share of each order, in parts of `FEE_SCALE`.
    pub fee_percentage: u128,
    pub fee_address: String,
}

/// An amount of one denomination.
pub struct Coin {
    pub denom: String,
    pub amount: u128,
}

/// A payment that the host ledger is asked to make on the engine's behalf.
pub struct Transfer {
    pub to_address: String,
    pub amount: Coin,
}

pub struct Attribute {
    pub key: String,
    pub value: String,
}

/// What an accepted operation hands back: payments to make and a record of what was done.
pub struct Response {
    pub messages: Vec<Transfer>,
    pub attributes: Vec<Attribute>,
}

/// The identities of the platform's owners, in the order they were added.
pub open spec fn owner_ids(c: PlatformConfig) -> Seq<Seq<char>> {
    c.owners@.map_values(|o: String| o@)
}

pub open spec fn attrs_view(a: Seq<Attribute>) -> Seq<(Seq<char>, Seq<char>)> {
    a.map_values(|x: Attribute| (x.key@, x.value@))
}

/// `r` pays nothing out and records exactly `attrs`, in order.
pub open spec fn records(r: Response, attrs: Seq<(Seq<char>, Seq<char>)>) -> bool {
    r.messages@.len() == 0 && attrs_view(r.attributes@) == attrs
}

impl Order {
    /// A field-for-field copy.
    pub fn duplicate(&self) -> (r: Order)
        ensures
            r.same(self),
    {
        let mut items: Vec<OrderItem> = Vec::new();
        let mut i: usize = 0;
        while i < self.items.len()
            invariant
                i <= self.items@.len(),
                items@ == self.items@.subrange(0, i as int),
            decreases self.items@.len() - i,
        {
            let it = &self.items[i];
            items.push(OrderItem { item_id: it.item_id.clone(), quantity: it.quantity });
            i = i + 1;
        }
        let rider_id = match &self.rider_id {
            Some(r) => Some(r.clone()),
            None => None,
        };
        assert(items@ =~= self.items@);
        Order {
            id: self.id.clone(),
            customer: self.customer.clone(),
            restaurant_id: self.restaurant_id.clone(),
            items,
            total: self.total,
            status: self.status,
            rider_id,
        }
    }

    pub open spec fn same(&self, o: &Order) -> bool {
        &&& self.id == o.id
        &&& self.customer == o.customer
        &&& self.restaurant_id == o.restaurant_id
        &&& self.items@ == o.items@
        &&& self.total == o.total
        &&& self.status == o.status
        &&& self.rider_id == o.rider_id
    }
}

impl Restaurant {
    pub fn duplicate(&self) -> (r: Restaurant)
        ensures
            r == *self,
    {
        Restaurant {
            id: self.id.clone(),
            owner: self.owner.clone(),
            name: self.name.clone(),
            image_uri: self.image_uri.clone(),
            restaurant_address: self.restaurant_address.clone(),
        }
    }
}

impl MenuItem {
    pub fn duplicate(&self) -> (r: MenuItem)
        ensures
            r == *self,
    {
        MenuItem {
            id: self.id.clone(),
            name: self.name.clone(),
            price: self.price,
            available: self.available,
            image_uri: self.image_uri.clone(),
        }
    }
}

impl Rider {
    pub fn duplicate(&self) -> (r: Rider)
        ensures
            r == *self,
    {
        Rider {
            id: self.id.clone(),
            name: self.name.clone(),
            wallet: self.wallet.clone(),
            is_registered: self.is_registered,
        }
    }
}

impl Escrow {
    pub fn duplicate(&self) -> (r: Escrow)
        ensures
            r == *self,
    {
        Escrow { order_id: self.order_id.clone(), amount: self.amount, released: self.released }
    }
}

/// Everything the engine keeps between operations.
pub struct State {
    pub config: Option<PlatformConfig>,
    pub restaurants: Table<Restaurant>,
    /// Menu items by restaurant id, then by item id.
    pub menu_items: Table<Table<MenuItem>>,
    pub riders: Table<Rider>,
    pub orders: Table<Order>,
    pub escrows: Table<Escrow>,
    /// How many orders have been created; the next order is numbered one more.
    pub order_count: u64,
}

impl State {
    /// Every table is ordered, the fee is at most one whole, the owners are distinct,
    /// each order's key is the key of an order number already handed out, and each
    /// order has its escrow.
    pub open spec fn wf(&self) -> bool {
        &&& self.restaurants.wf()
        &&& self.menu_items.wf()
        &&& forall|r: Seq<char>| #[trigger]
            self.menu_items.map().contains_key(r) ==> self.menu_items.map()[r].wf()
        &&& self.riders.wf()
        &&& self.orders.wf()
        &&& self.escrows.wf()
        &&& (self.config matches Some(c) ==> c.fee_percentage <= FEE_SCALE
            && owner_ids(c).no_duplicates())
        &&& forall|k: Seq<char>| #[trigger]
            self.orders.map().contains_key(k) ==> exists|n: nat|
                1 <= n <= self.order_count && k == order_key(n)
        &&& forall|k: Seq<char>| #[trigger]
            self.orders.map().contains_key(k) ==> self.escrows.map().contains_key(k)
    }

    /// The menu of restaurant `r`, empty where it has none.
    pub open spec fn menu(&self, r: Seq<char>) -> Map<Seq<char>, MenuItem> {
        if self.menu_items.map().contains_key(r) {
            self.menu_items.map()[r].map()
        } else {
            Map::empty()
        }
    }

    /// Tells whether the state is well formed; a state read back from storage is checked
    /// with this before any operation runs on it.
    pub fn well_formed(&self) -> (r: bool)
        ensures
            r ==> self.wf(),
    {
        if !(self.restaurants.is_ordered() && self.menu_items.is_ordered()
            && self.riders.is_ordered() && self.orders.is_ordered() && self.escrows.is_ordered()) {
            return false;
        }
        let ghost menus = self.menu_items@;
        let mut i: usize = 0;
        while i < self.menu_items.len()
            invariant
                menus == self.menu_items@,
                i <= menus.len(),
                forall|j: int| 0 <= j < i ==> (#[trigger] menus[j]).1.wf(),
            decreases menus.len() - i,
        {
            if !self.menu_items.value_at(i).is_ordered() {
                return false;
            }
            i = i + 1;
        }
        proof {
            lemma_sorted_distinct(menus);
            assert forall|r: Seq<char>| #[trigger]
                self.menu_items.map().contains_key(r) implies self.menu_items.map()[r].wf() by {
                let j = choose|j: int| 0 <= j < menus.len() && menus[j].0 == r;
                lemma_entries_map_at(menus, j);
            }
        }
        if let Some(c) = &self.config {
            if c.fee_percentage > FEE_SCALE {
                return false;
            }
            let ghost ids = owner_ids(*c);
            let mut a: usize = 0;
            while a < c.owners.len()
                invariant
                    ids == owner_ids(*c),
                    a <= ids.len(),
                    forall|x: int, y: int| 0 <= x < a && 0 <= y < a && x != y ==> ids[x] != ids[y],
                decreases ids.len() - a,
            {
                let mut b: usize = 0;
                while b < a
                    invariant
                        ids == owner_ids(*c),
                        a < ids.len(),
                        b <= a,
                        forall|y: int| 0 <= y < b ==> ids[y] != ids[a as int],
                    decreases a - b,
                {
                    assert(ids[a as int] == c.owners@[a as int]@ && ids[b as int] == c.owners@[b as int]@);
                    if key_eq(c.owners[a].as_str(), c.owners[b].as_str()) {
                        return false;
                    }
                    b = b + 1;
                }
                a = a + 1;
            }
        }
        let ghost orders = self.orders@;
        let mut k: usize = 0;
        while k < self.orders.len()
            invariant
                orders == self.orders@,
                self.escrows.wf(),
                k <= orders.len(),
                forall|j: int| 0 <= j < k ==> exists|n: nat|
                    1 <= n <= self.order_count && (#[trigger] orders[j]).0 == order_key(n),
                forall|j: int| 0 <= j < k ==> self.escrows.map().contains_key((#[trigger] orders[j]).0),
            decreases orders.len() - k,
        {
            let key = self.orders.key_at(k).as_str();
            match order_number(key) {
                Some(n) => {
                    if n == 0 || n > self.order_count {
                        return false;
                    }
                    assert(orders[k as int].0 == order_key(n as nat));
                },
                None => return false,
            }
            if self.escrows.get(key).is_none() {
                return false;
            }
            k = k + 1;
        }
        proof {
            lemma_sorted_distinct(orders);
            assert forall|key: Seq<char>| #[trigger] self.orders.map().contains_key(key) implies (exists|n: nat|
                1 <= n <= self.order_count && key == order_key(n)) && self.escrows.map().contains_key(key) by {
                let j = choose|j: int| 0 <= j < orders.len() && orders[j].0 == key;
                assert(orders[j].0 == key);
            }
        }
        true
    }

    pub fn new() -> (r: State)
        ensures
            r.wf(),
            r.config is None,
            r.restaurants.map() == Map::<Seq<char>, Restaurant>::empty(),
            r.menu_items.map() == Map::<Seq<char>, Table<MenuItem>>::empty(),
            r.riders.map() == Map::<Seq<char>, Rider>::empty(),
            r.orders.map() == Map::<Seq<char>, Order>::empty(),
            r.escrows.map() == Map::<Seq<char>, Escrow>::empty(),
            r.order_count == 0,
    {
        State {
            config: None,
            restaurants: Table::new(),
            menu_items: Table::new(),
            riders: Table::new(),
            orders: Table::new(),
            escrows: Table::new(),
            order_count: 0,
        }
    }
}

} // verus!
