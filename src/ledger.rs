use vstd::prelude::*;

use crate::catalog::{Inventory, InventoryError, restock_fits, restocked, with_quantity};

verus! {

/// One sale: `quantity` units of `product_name` sold at `sale_price` cents each.
pub struct SalesTransaction {
    pub product_name: String,
    pub quantity: u32,
    pub sale_price: u64,
    pub total: u128,
}

/// One purchase: `quantity` units of `product_name` bought at `purchase_price` cents each.
pub struct PurchaseTransaction {
    pub product_name: String,
    pub quantity: u32,
    pub purchase_price: u64,
    pub total: u128,
}

/// The amount, in cents, of `quantity` units at `unit_price` each.
pub open spec fn line_total(unit_price: u64, quantity: u32) -> int {
    unit_price as int * quantity as int
}

/// `unit_price * quantity`, computed without overflow.
pub fn total_of(unit_price: u64, quantity: u32) -> (r: u128)
    ensures
        r as int == line_total(unit_price, quantity),
{
    let p = unit_price as u128;
    let q = quantity as u128;
    assert(p * q <= 0xffff_ffff_ffff_ffff_u128 * 0xffff_ffff_u128) by (nonlinear_arith)
        requires
            p <= 0xffff_ffff_ffff_ffff_u128,
            q <= 0xffff_ffff_u128,
    ;
    p * q
}

/// The record of all sales and purchases, in the order they were made.
pub struct Ledger {
    sales: Vec<SalesTransaction>,
    purchases: Vec<PurchaseTransaction>,
}

impl Ledger {
    /// The sales, oldest first.
    pub closed spec fn sales(&self) -> Seq<SalesTransaction> {
        self.sales@
    }

    /// The purchases, oldest first.
    pub closed spec fn purchases(&self) -> Seq<PurchaseTransaction> {
        self.purchases@
    }

    /// Every recorded total is its unit price times its quantity.
    pub open spec fn wf(&self) -> bool {
        &&& forall|i: int|
            0 <= i < self.sales().len() ==> #[trigger] self.sales()[i].total as int == line_total(
                self.sales()[i].sale_price,
                self.sales()[i].quantity,
            )
        &&& forall|i: int|
            0 <= i < self.purchases().len() ==> #[trigger] self.purchases()[i].total as int
                == line_total(self.purchases()[i].purchase_price, self.purchases()[i].quantity)
    }

    /// An empty ledger.
    pub fn new() -> (r: Ledger)
        ensures
            r.wf(),
            r.sales().len() == 0,
            r.purchases().len() == 0,
    {
        Ledger { sales: Vec::new(), purchases: Vec::new() }
    }

    /// Sells `quantity` units of `name` at `sale_price` cents each: takes them
    /// out of stock and records the sale. Nothing changes when the product is
    /// unknown or short of stock.
    pub fn record_sale(
        &mut self,
        inventory: &mut Inventory,
        name: &str,
        quantity: u32,
        sale_price: u64,
    ) -> (r: Result<SalesTransaction, InventoryError>)
        requires
            old(self).wf(),
            old(inventory).wf(),
        ensures
            final(self).wf(),
            final(inventory).wf(),
            !old(inventory)@.contains_key(name@) ==> r == Err::<SalesTransaction, InventoryError>(
                InventoryError::NotFound,
            ),
            old(inventory)@.contains_key(name@) && quantity > old(inventory)@[name@].quantity ==> r
                == Err::<SalesTransaction, InventoryError>(InventoryError::InsufficientStock),
            r is Err ==> *final(self) == *old(self) && final(inventory)@ == old(inventory)@,
            old(inventory)@.contains_key(name@) && quantity <= old(inventory)@[name@].quantity ==> {
                &&& r is Ok
                &&& final(inventory)@ == old(inventory)@.insert(
                    name@,
                    with_quantity(
                        old(inventory)@[name@],
                        (old(inventory)@[name@].quantity - quantity) as u32,
                    ),
                )
                &&& r->Ok_0.product_name@ == name@
                &&& r->Ok_0.quantity == quantity
                &&& r->Ok_0.sale_price == sale_price
                &&& r->Ok_0.total as int == line_total(sale_price, quantity)
                &&& final(self).sales() == old(self).sales().push(r->Ok_0)
                &&& final(self).purchases() == old(self).purchases()
            },
    {
        match inventory.withdraw(name, quantity) {
            Err(e) => Err(e),
            Ok(()) => {
                let key = name.to_owned();
                let total = total_of(sale_price, quantity);
                let entry = SalesTransaction {
                    product_name: key.clone(),
                    quantity,
                    sale_price,
                    total,
                };
                let ghost before = self.sales();
                let ghost others = self.purchases();
                self.sales.push(entry);
                proof {
                    assert(self.purchases() == others);
                    assert forall|i: int| 0 <= i < self.sales().len() implies #[trigger] self.sales()[i].total as int
                        == line_total(self.sales()[i].sale_price, self.sales()[i].quantity) by {
                        if i < before.len() {
                            assert(self.sales()[i] == before[i]);
                        }
                    }
                }
                Ok(SalesTransaction { product_name: key, quantity, sale_price, total })
            },
        }
    }

    /// Buys `quantity` units of `name` at `purchase_price` cents each: adds
    /// them to stock, creating the product when it is unknown, and records the
    /// purchase.
    pub fn record_purchase(
        &mut self,
        inventory: &mut Inventory,
        name: &str,
        quantity: u32,
        purchase_price: u64,
    ) -> (r: PurchaseTransaction)
        requires
            old(self).wf(),
            old(inventory).wf(),
            restock_fits(old(inventory)@, name@, quantity),
        ensures
            final(self).wf(),
            final(inventory).wf(),
            final(inventory)@ == restocked(old(inventory)@, name@, quantity, purchase_price),
            r.product_name@ == name@,
            r.quantity == quantity,
            r.purchase_price == purchase_price,
            r.total as int == line_total(purchase_price, quantity),
            final(self).purchases() == old(self).purchases().push(r),
            final(self).sales() == old(self).sales(),
    {
        inventory.restock(name, quantity, purchase_price);
        let key = name.to_owned();
        let total = total_of(purchase_price, quantity);
        let entry = PurchaseTransaction {
            product_name: key.clone(),
            quantity,
            purchase_price,
            total,
        };
        let ghost before = self.purchases();
        let ghost others = self.sales();
        self.purchases.push(entry);
        proof {
            assert(self.sales() == others);
            assert forall|i: int| 0 <= i < self.purchases().len() implies #[trigger] self.purchases()[i].total as int
                == line_total(self.purchases()[i].purchase_price, self.purchases()[i].quantity) by {
                if i < before.len() {
                    assert(self.purchases()[i] == before[i]);
                }
            }
        }
        PurchaseTransaction { product_name: key, quantity, purchase_price, total }
    }

    /// The sales, oldest first.
    pub fn sales_report(&self) -> (r: &Vec<SalesTransaction>)
        ensures
            r@ == self.sales(),
    {
        &self.sales
    }

    /// The purchases, oldest first.
    pub fn purchase_report(&self) -> (r: &Vec<PurchaseTransaction>)
        ensures
            r@ == self.purchases(),
    {
        &self.purchases
    }
}

} // verus!
