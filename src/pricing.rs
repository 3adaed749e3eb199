use vstd::prelude::*;

use crate::error::ContractError;
use crate::msg::OrderItem;
use crate::state::{MenuItem, State};

verus! {

/// The total of `items` against `menu`, line by line, stopping at the first line that
/// is missing, unavailable, or does not fit in a `u128`.
pub open spec fn running_total(menu: Map<Seq<char>, MenuItem>, items: Seq<OrderItem>) -> Result<
    u128,
    ContractError,
>
    decreases items.len(),
{
    if items.len() == 0 {
        Ok(0)
    } else {
        match running_total(menu, items.drop_last()) {
            Err(e) => Err(e),
            Ok(acc) => {
                let it = items.last();
                if !menu.contains_key(it.item_id@) {
                    Err(ContractError::ItemNotFound {  })
                } else if !menu[it.item_id@].available {
                    Err(ContractError::ItemNotAvailable)
                } else if menu[it.item_id@].price * it.quantity > u128::MAX {
                    Err(ContractError::Overflow {  })
                } else if acc + menu[it.item_id@].price * it.quantity > u128::MAX {
                    Err(ContractError::Overflow {  })
                } else {
                    Ok((acc + menu[it.item_id@].price * it.quantity) as u128)
                }
            },
        }
    }
}

/// What an order of `items` from restaurant `restaurant_id` costs, or why it cannot be placed.
pub open spec fn price_spec(s: &State, restaurant_id: Seq<char>, items: Seq<OrderItem>) -> Result<
    u128,
    ContractError,
> {
    if items.len() == 0 {
        Err(ContractError::EmptyOrder {  })
    } else if !s.restaurants.map().contains_key(restaurant_id) {
        Err(ContractError::RestaurantNotFound)
    } else {
        match running_total(s.menu(restaurant_id), items) {
            Err(e) => Err(e),
            Ok(t) => if t == 0 {
                Err(ContractError::InvalidOrderAmount {  })
            } else {
                Ok(t)
            },
        }
    }
}

/// Once a prefix of the lines fails, the whole order fails the same way.
proof fn lemma_running_total_error(menu: Map<Seq<char>, MenuItem>, items: Seq<OrderItem>, i: int)
    requires
        0 <= i <= items.len(),
        running_total(menu, items.subrange(0, i)) is Err,
    ensures
        running_total(menu, items) == running_total(menu, items.subrange(0, i)),
    decreases items.len() - i,
{
    if i < items.len() {
        assert(items.subrange(0, i + 1).drop_last() =~= items.subrange(0, i));
        lemma_running_total_error(menu, items, i + 1);
    } else {
        assert(items.subrange(0, i) =~= items);
    }
}

/// Prices `items` against the live menu of `restaurant_id`. Changes nothing.
pub fn price_order(state: &State, restaurant_id: &str, items: &Vec<OrderItem>) -> (r: Result<
    u128,
    ContractError,
>)
    requires
        state.wf(),
    ensures
        r == price_spec(state, restaurant_id@, items@),
{
    if items.len() == 0 {
        return Err(ContractError::EmptyOrder {  });
    }
    if state.restaurants.get(restaurant_id).is_none() {
        return Err(ContractError::RestaurantNotFound);
    }
    let menu = state.menu_items.get(restaurant_id);
    let ghost m = state.menu(restaurant_id@);
    let mut total: u128 = 0;
    let mut i: usize = 0;
    while i < items.len()
        invariant
            state.wf(),
            state.restaurants.map().contains_key(restaurant_id@),
            items@.len() > 0,
            i <= items@.len(),
            m == state.menu(restaurant_id@),
            menu matches Some(t) ==> t.wf() && t.map() == m,
            menu is None ==> m == Map::<Seq<char>, MenuItem>::empty(),
            running_total(m, items@.subrange(0, i as int)) == Ok::<u128, ContractError>(total),
        decreases items@.len() - i,
    {
        let it = &items[i];
        assert(items@.subrange(0, i + 1).drop_last() =~= items@.subrange(0, i as int));
        assert(items@.subrange(0, i + 1).last() == items@[i as int]);
        let found = match menu {
            Some(t) => t.get(it.item_id.as_str()),
            None => None,
        };
        let item = match found {
            Some(item) => item,
            None => {
                proof {
                    assert(!m.contains_key(it.item_id@));
                    assert(running_total(m, items@.subrange(0, i + 1)) == Err::<u128, ContractError>(
                        ContractError::ItemNotFound {  },
                    ));
                    lemma_running_total_error(m, items@, i + 1);
                }
                return Err(ContractError::ItemNotFound {  });
            },
        };
        if !item.available {
            proof {
                assert(m.contains_key(it.item_id@) && m[it.item_id@] == *item);
                assert(running_total(m, items@.subrange(0, i + 1)) == Err::<u128, ContractError>(
                    ContractError::ItemNotAvailable,
                ));
                lemma_running_total_error(m, items@, i + 1);
            }
            return Err(ContractError::ItemNotAvailable);
        }
        let line = match item.price.checked_mul(it.quantity as u128) {
            Some(line) => line,
            None => {
                proof {
                    lemma_running_total_error(m, items@, i + 1);
                }
                return Err(ContractError::Overflow {  });
            },
        };
        total = match total.checked_add(line) {
            Some(t) => t,
            None => {
                proof {
                    lemma_running_total_error(m, items@, i + 1);
                }
                return Err(ContractError::Overflow {  });
            },
        };
        i = i + 1;
    }
    assert(items@.subrange(0, i as int) =~= items@);
    if total == 0 {
        return Err(ContractError::InvalidOrderAmount {  });
    }
    Ok(total)
}

} // verus!
