//! Shops and their departments: the catalog data the admission engine
//! works against.  A department is a capacity-bounded resource pool
//! inside one shop.

use vstd::prelude::*;

verus! {

/// Catalog entry for one shop.
#[derive(Debug, PartialEq)]
pub struct Shop {
    pub id: i32,
    pub name: String,
    pub description: String,
    pub image: Option<String>,
    pub location: String,
}

/// One department: at most `capacity` tickets may be inside it at once.
#[derive(Debug, PartialEq)]
pub struct Department {
    pub uid: i32,
    pub shop_id: i32,
    pub description: String,
    pub capacity: i32,
}

/// One department together with how many tickets are currently inside
/// it, as shown on staff dashboards.
#[derive(Debug, PartialEq, Eq, Structural, Clone, Copy)]
pub struct DepartmentOccupancy {
    pub department_id: i32,
    pub capacity: i32,
    pub occupancy: i32,
}

/// Find a shop in a catalog by its identifier.
pub fn find_shop(shops: &Vec<Shop>, id: i32) -> (r: Option<&Shop>)
    ensures
        match r {
            Some(s) => exists|i: int| 0 <= i < shops@.len() && shops@[i] == *s && s.id == id,
            None => forall|i: int| 0 <= i < shops@.len() ==> (#[trigger] shops@[i]).id != id,
        },
{
    let mut i: usize = 0;
    while i < shops.len()
        invariant
            i <= shops@.len(),
            forall|j: int| 0 <= j < i ==> (#[trigger] shops@[j]).id != id,
        decreases shops@.len() - i,
    {
        if shops[i].id == id {
            return Some(&shops[i]);
        }
        i += 1;
    }
    None
}

} // verus!
