use vstd::prelude::*;

verus! {

/// Why an operation on the inventory or the ledger was refused.
#[derive(Debug, Clone, Copy, PartialEq, Eq, Structural)]
pub enum InventoryError {
    /// A product of that name is already in the catalog.
    DuplicateName,
    /// No product of that name is in the catalog.
    NotFound,
    /// A sale asks for more units than are in stock.
    InsufficientStock,
}

/// A named stock item. `price` is in cents.
pub struct Product {
    pub name: String,
    pub description: String,
    pub price: u64,
    pub quantity: u32,
}

/// What the catalog records of a product under its name.
pub ghost struct ProductView {
    pub description: Seq<char>,
    pub price: u64,
    pub quantity: u32,
}

impl View for Product {
    type V = ProductView;

    open spec fn view(&self) -> ProductView {
        ProductView { description: self.description@, price: self.price, quantity: self.quantity }
    }
}

/// The catalog: products keyed by their name.
pub struct Inventory {
    items: Vec<Product>,
}

/// No two products of `items` share a name.
pub open spec fn names_unique(items: Seq<Product>) -> bool {
    forall|i: int, j: int|
        0 <= i < items.len() && 0 <= j < items.len() && i != j ==> items[i].name@ != items[j].name@
}

/// Some product of `items` is named `k`.
pub open spec fn has_name(items: Seq<Product>, k: Seq<char>) -> bool {
    exists|i: int| 0 <= i < items.len() && items[i].name@ == k
}

/// The map from name to product that `items` stands for.
pub open spec fn catalog_of(items: Seq<Product>) -> Map<Seq<char>, ProductView> {
    Map::new(
        |k: Seq<char>| has_name(items, k),
        |k: Seq<char>| items[choose|i: int| 0 <= i < items.len() && items[i].name@ == k]@,
    )
}

/// A product after an edit: each field given is overwritten, the others are kept.
pub open spec fn edited(
    p: ProductView,
    description: Option<String>,
    price: Option<u64>,
    quantity: Option<u32>,
) -> ProductView {
    ProductView {
        description: match description {
            Some(d) => d@,
            None => p.description,
        },
        price: match price {
            Some(x) => x,
            None => p.price,
        },
        quantity: match quantity {
            Some(q) => q,
            None => p.quantity,
        },
    }
}

/// A product with its stock set to `quantity`.
pub open spec fn with_quantity(p: ProductView, quantity: u32) -> ProductView {
    ProductView { description: p.description, price: p.price, quantity }
}

/// A purchase of `quantity` units under `name` keeps the stock within `u32`.
pub open spec fn restock_fits(m: Map<Seq<char>, ProductView>, name: Seq<char>, quantity: u32) -> bool {
    m.contains_key(name) ==> m[name].quantity + quantity <= u32::MAX
}

/// The catalog after a purchase: a known product gains the units, an unknown
/// one is created with the purchase price and an empty description.
pub open spec fn restocked(
    m: Map<Seq<char>, ProductView>,
    name: Seq<char>,
    quantity: u32,
    price: u64,
) -> Map<Seq<char>, ProductView> {
    if m.contains_key(name) {
        m.insert(name, with_quantity(m[name], (m[name].quantity + quantity) as u32))
    } else {
        m.insert(name, ProductView { description: Seq::empty(), price, quantity })
    }
}

/// A purchase of a known product adds the units to its stock and keeps its
/// price and description; a purchase of an unknown one creates it with the
/// units bought, the purchase price and no description. Nothing else changes.
pub proof fn lemma_restock_provisions(
    m: Map<Seq<char>, ProductView>,
    name: Seq<char>,
    quantity: u32,
    price: u64,
)
    requires
        restock_fits(m, name, quantity),
    ensures
        restocked(m, name, quantity, price).contains_key(name),
        m.contains_key(name) ==> {
            let p = restocked(m, name, quantity, price)[name];
            &&& p.quantity == m[name].quantity + quantity
            &&& p.price == m[name].price
            &&& p.description == m[name].description
        },
        !m.contains_key(name) ==> {
            let p = restocked(m, name, quantity, price)[name];
            &&& p.quantity == quantity
            &&& p.price == price
            &&& p.description == Seq::<char>::empty()
        },
        forall|k: Seq<char>|
            k != name ==> (#[trigger] restocked(m, name, quantity, price).contains_key(k)
                == m.contains_key(k)) && (m.contains_key(k) ==> restocked(
                m,
                name,
                quantity,
                price,
            )[k] == m[k]),
{
}

/// Under unique names, the entry of each product's name is that product.
proof fn lemma_catalog_entry(items: Seq<Product>, i: int)
    requires
        names_unique(items),
        0 <= i < items.len(),
    ensures
        catalog_of(items).contains_key(items[i].name@),
        catalog_of(items)[items[i].name@] == items[i]@,
{
    let k = items[i].name@;
    assert(has_name(items, k));
    let j = choose|j: int| 0 <= j < items.len() && items[j].name@ == k;
    assert(j == i);
}

/// Under unique names, every product's entry is that product.
proof fn lemma_catalog_entries(items: Seq<Product>)
    requires
        names_unique(items),
    ensures
        forall|i: int|
            0 <= i < items.len() ==> #[trigger] catalog_of(items).contains_key(items[i].name@)
                && catalog_of(items)[items[i].name@] == items[i]@,
{
    assert forall|i: int| 0 <= i < items.len() implies #[trigger] catalog_of(items).contains_key(
        items[i].name@,
    ) && catalog_of(items)[items[i].name@] == items[i]@ by {
        lemma_catalog_entry(items, i);
    }
}

/// Replacing a product by one of the same name replaces its entry.
proof fn lemma_catalog_update(items: Seq<Product>, i: int, p: Product)
    requires
        names_unique(items),
        0 <= i < items.len(),
        p.name@ == items[i].name@,
    ensures
        names_unique(items.update(i, p)),
        catalog_of(items.update(i, p)) == catalog_of(items).insert(p.name@, p@),
{
    let after = items.update(i, p);
    assert(names_unique(after));
    lemma_catalog_entries(items);
    lemma_catalog_entries(after);
    assert forall|k: Seq<char>| has_name(after, k) <==> has_name(items, k) by {
        if has_name(items, k) {
            let j = choose|j: int| 0 <= j < items.len() && items[j].name@ == k;
            assert(after[j].name@ == k);
        }
        if has_name(after, k) {
            let j = choose|j: int| 0 <= j < after.len() && after[j].name@ == k;
            assert(items[j].name@ == k);
        }
    }
    assert forall|k: Seq<char>| #[trigger] catalog_of(after).contains_key(k) implies catalog_of(
        after,
    )[k] == catalog_of(items).insert(p.name@, p@)[k] by {
        let j = choose|j: int| 0 <= j < after.len() && after[j].name@ == k;
        lemma_catalog_entry(after, j);
        lemma_catalog_entry(items, j);
    }
    assert(catalog_of(after) =~= catalog_of(items).insert(p.name@, p@));
}

/// Taking a product out takes its entry out.
proof fn lemma_catalog_remove(items: Seq<Product>, i: int)
    requires
        names_unique(items),
        0 <= i < items.len(),
    ensures
        names_unique(items.remove(i)),
        catalog_of(items.remove(i)) == catalog_of(items).remove(items[i].name@),
{
    let after = items.remove(i);
    let key = items[i].name@;
    assert forall|a: int, b: int|
        0 <= a < after.len() && 0 <= b < after.len() && a != b implies after[a].name@
        != after[b].name@ by {
        let a2 = if a < i { a } else { a + 1 };
        let b2 = if b < i { b } else { b + 1 };
        assert(after[a] == items[a2]);
        assert(after[b] == items[b2]);
    }
    assert forall|k: Seq<char>| has_name(after, k) <==> has_name(items, k) && k != key by {
        if has_name(items, k) && k != key {
            let j = choose|j: int| 0 <= j < items.len() && items[j].name@ == k;
            assert(j != i);
            let j2 = if j < i { j } else { j - 1 };
            assert(after[j2] == items[j]);
        }
        if has_name(after, k) {
            let j = choose|j: int| 0 <= j < after.len() && after[j].name@ == k;
            let j2 = if j < i { j } else { j + 1 };
            assert(after[j] == items[j2]);
        }
    }
    assert forall|k: Seq<char>| #[trigger] catalog_of(after).contains_key(k) implies catalog_of(
        after,
    )[k] == catalog_of(items)[k] by {
        let j = choose|j: int| 0 <= j < after.len() && after[j].name@ == k;
        let j2 = if j < i { j } else { j + 1 };
        assert(after[j] == items[j2]);
        lemma_catalog_entry(after, j);
        lemma_catalog_entry(items, j2);
    }
    assert(catalog_of(after) =~= catalog_of(items).remove(key));
}

impl View for Inventory {
    type V = Map<Seq<char>, ProductView>;

    closed spec fn view(&self) -> Map<Seq<char>, ProductView> {
        catalog_of(self.items@)
    }
}

impl Inventory {
    /// The catalog holds each name at most once.
    pub closed spec fn wf(&self) -> bool {
        names_unique(self.items@)
    }

    /// An empty catalog.
    pub fn new() -> (r: Inventory)
        ensures
            r.wf(),
            r@ == Map::<Seq<char>, ProductView>::empty(),
    {
        let r = Inventory { items: Vec::new() };
        assert(r@ =~= Map::<Seq<char>, ProductView>::empty());
        r
    }

    /// The position of the product named `key`, if any.
    fn find(&self, key: &String) -> (r: Option<usize>)
        requires
            self.wf(),
        ensures
            match r {
                Some(i) => i < self.items@.len() && self.items@[i as int].name@ == key@,
                None => !has_name(self.items@, key@),
            },
            r is Some <==> self@.contains_key(key@),
    {
        let mut i: usize = 0;
        while i < self.items.len()
            invariant
                i <= self.items@.len(),
                forall|j: int| 0 <= j < i ==> self.items@[j].name@ != key@,
            decreases self.items@.len() - i,
        {
            if self.items[i].name == *key {
                return Some(i);
            }
            i = i + 1;
        }
        None
    }

    /// Adds a product; refused when the name is already taken.
    pub fn add(&mut self, name: String, description: String, price: u64, quantity: u32) -> (r:
        Result<(), InventoryError>)
        requires
            old(self).wf(),
        ensures
            final(self).wf(),
            old(self)@.contains_key(name@) ==> r == Err::<(), InventoryError>(
                InventoryError::DuplicateName,
            ) && final(self)@ == old(self)@,
            !old(self)@.contains_key(name@) ==> r is Ok && final(self)@ == old(self)@.insert(
                name@,
                ProductView { description: description@, price, quantity },
            ),
    {
        if self.find(&name).is_some() {
            return Err(InventoryError::DuplicateName);
        }
        let ghost before = self.items@;
        let ghost key = name@;
        let product = Product { name, description, price, quantity };
        self.items.push(product);
        proof {
            let after = self.items@;
            assert(names_unique(after));
            lemma_catalog_entries(after);
            assert forall|k: Seq<char>| has_name(after, k) <==> has_name(before, k) || k == key by {
                if has_name(before, k) {
                    let i = choose|i: int| 0 <= i < before.len() && before[i].name@ == k;
                    assert(after[i] == before[i]);
                }
                if has_name(after, k) && k != key {
                    let i = choose|i: int| 0 <= i < after.len() && after[i].name@ == k;
                    assert(i < before.len());
                    assert(before[i] == after[i]);
                }
                if k == key {
                    assert(after[before.len() as int].name@ == key);
                }
            }
            assert forall|k: Seq<char>| #[trigger] catalog_of(before).contains_key(k) implies catalog_of(
                after,
            )[k] == catalog_of(before)[k] by {
                let i = choose|i: int| 0 <= i < before.len() && before[i].name@ == k;
                lemma_catalog_entry(before, i);
                assert(after[i] == before[i]);
            }
            assert(catalog_of(after) =~= catalog_of(before).insert(
                key,
                ProductView { description: description@, price, quantity },
            ));
        }
        Ok(())
    }

    /// Changes the fields given of the product named `name`.
    pub fn edit(
        &mut self,
        name: &str,
        description: Option<String>,
        price: Option<u64>,
        quantity: Option<u32>,
    ) -> (r: Result<(), InventoryError>)
        requires
            old(self).wf(),
        ensures
            final(self).wf(),
            !old(self)@.contains_key(name@) ==> r == Err::<(), InventoryError>(
                InventoryError::NotFound,
            ) && final(self)@ == old(self)@,
            old(self)@.contains_key(name@) ==> r is Ok && final(self)@ == old(self)@.insert(
                name@,
                edited(old(self)@[name@], description, price, quantity),
            ),
    {
        let key = name.to_owned();
        match self.find(&key) {
            None => Err(InventoryError::NotFound),
            Some(i) => {
                let current = &self.items[i];
                let new_description = match description {
                    Some(d) => d,
                    None => current.description.clone(),
                };
                let new_price = match price {
                    Some(x) => x,
                    None => current.price,
                };
                let new_quantity = match quantity {
                    Some(q) => q,
                    None => current.quantity,
                };
                let p = Product {
                    name: current.name.clone(),
                    description: new_description,
                    price: new_price,
                    quantity: new_quantity,
                };
                proof {
                    lemma_catalog_entry(self.items@, i as int);
                    lemma_catalog_update(self.items@, i as int, p);
                }
                self.items.set(i, p);
                Ok(())
            },
        }
    }

    /// Removes the product named `name`.
    pub fn delete(&mut self, name: &str) -> (r: Result<(), InventoryError>)
        requires
            old(self).wf(),
        ensures
            final(self).wf(),
            !old(self)@.contains_key(name@) ==> r == Err::<(), InventoryError>(
                InventoryError::NotFound,
            ) && final(self)@ == old(self)@,
            old(self)@.contains_key(name@) ==> r is Ok && final(self)@ == old(self)@.remove(name@),
    {
        let key = name.to_owned();
        match self.find(&key) {
            None => Err(InventoryError::NotFound),
            Some(i) => {
                proof {
                    lemma_catalog_remove(self.items@, i as int);
                }
                self.items.remove(i);
                Ok(())
            },
        }
    }

    /// The product named `name`, if any.
    pub fn get(&self, name: &str) -> (r: Option<&Product>)
        requires
            self.wf(),
        ensures
            match r {
                Some(p) => self@.contains_key(name@) && p.name@ == name@ && p@ == self@[name@],
                None => !self@.contains_key(name@),
            },
    {
        let key = name.to_owned();
        match self.find(&key) {
            None => None,
            Some(i) => {
                proof {
                    lemma_catalog_entry(self.items@, i as int);
                }
                Some(&self.items[i])
            },
        }
    }

    /// All products, each once, in the catalog's own order.
    pub fn list(&self) -> (r: &Vec<Product>)
        requires
            self.wf(),
        ensures
            names_unique(r@),
            catalog_of(r@) == self@,
    {
        &self.items
    }

    /// Takes `quantity` units of `name` out of stock, when that many are there.
    pub fn withdraw(&mut self, name: &str, quantity: u32) -> (r: Result<(), InventoryError>)
        requires
            old(self).wf(),
        ensures
            final(self).wf(),
            !old(self)@.contains_key(name@) ==> r == Err::<(), InventoryError>(
                InventoryError::NotFound,
            ) && final(self)@ == old(self)@,
            old(self)@.contains_key(name@) && quantity > old(self)@[name@].quantity ==> r == Err::<
                (),
                InventoryError,
            >(InventoryError::InsufficientStock) && final(self)@ == old(self)@,
            old(self)@.contains_key(name@) && quantity <= old(self)@[name@].quantity ==> r is Ok
                && final(self)@ == old(self)@.insert(
                name@,
                with_quantity(old(self)@[name@], (old(self)@[name@].quantity - quantity) as u32),
            ),
    {
        let key = name.to_owned();
        match self.find(&key) {
            None => Err(InventoryError::NotFound),
            Some(i) => {
                proof {
                    lemma_catalog_entry(self.items@, i as int);
                }
                let current = &self.items[i];
                if quantity > current.quantity {
                    return Err(InventoryError::InsufficientStock);
                }
                let p = Product {
                    name: current.name.clone(),
                    description: current.description.clone(),
                    price: current.price,
                    quantity: current.quantity - quantity,
                };
                proof {
                    lemma_catalog_update(self.items@, i as int, p);
                }
                self.items.set(i, p);
                Ok(())
            },
        }
    }

    /// Whether a purchase of `quantity` units of `name` keeps its stock within `u32`.
    pub fn can_restock(&self, name: &str, quantity: u32) -> (r: bool)
        requires
            self.wf(),
        ensures
            r == restock_fits(self@, name@, quantity),
    {
        match self.get(name) {
            None => true,
            Some(p) => quantity <= u32::MAX - p.quantity,
        }
    }

    /// Adds `quantity` units of `name` to stock, creating the product with
    /// `price` and no description when it is unknown.
    pub fn restock(&mut self, name: &str, quantity: u32, price: u64)
        requires
            old(self).wf(),
            restock_fits(old(self)@, name@, quantity),
        ensures
            final(self).wf(),
            final(self)@ == restocked(old(self)@, name@, quantity, price),
    {
        let key = name.to_owned();
        match self.find(&key) {
            None => {
                let _ = self.add(key, String::new(), price, quantity);
            },
            Some(i) => {
                proof {
                    lemma_catalog_entry(self.items@, i as int);
                }
                let current = &self.items[i];
                let p = Product {
                    name: current.name.clone(),
                    description: current.description.clone(),
                    price: current.price,
                    quantity: current.quantity + quantity,
                };
                proof {
                    lemma_catalog_update(self.items@, i as int, p);
                }
                self.items.set(i, p);
            },
        }
    }
}

} // verus!
