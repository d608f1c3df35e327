//! Delivery addresses of users and their checks.
use vstd::prelude::*;
use crate::types::UserId;
use std::time::SystemTime;

verus! {

/// A point in time, as the system clock gives it.
#[verifier::external_type_specification]
#[verifier::external_body]
pub struct ExSystemTime(SystemTime);

/// A stored delivery address of a user.
#[derive(Debug)]
pub struct UserAddress {
    pub id: i32,
    pub user_id: UserId,
    pub administrative_area_level_1: Option<String>,
    pub administrative_area_level_2: Option<String>,
    pub country: String,
    pub locality: Option<String>,
    pub political: Option<String>,
    pub postal_code: String,
    pub route: Option<String>,
    pub street_number: Option<String>,
    pub address: Option<String>,
    pub is_priority: bool,
    pub created_at: SystemTime,
    pub updated_at: SystemTime,
    pub country_code: Option<String>,
}

/// The text of an optional string.
pub open spec fn opt_text(s: Option<String>) -> Option<Seq<char>> {
    match s {
        Some(t) => Some(t@),
        None => None,
    }
}

/// Whether two optional texts are equal (both absent, or both present with
/// the same text).
fn same_opt_text(a: &Option<String>, b: &Option<String>) -> (res: bool)
    ensures
        res == (opt_text(*a) == opt_text(*b)),
{
    match (a, b) {
        (Some(x), Some(y)) => (*x) == (*y),
        (None, None) => true,
        _ => false,
    }
}

/// Whether a stored address is the one a new address describes: the same
/// user, country and postal code, and the same optional parts, an absent
/// part matching only an absent one.
pub open spec fn same_address(existing: UserAddress, payload: NewUserAddress) -> bool {
    &&& existing.user_id == payload.user_id
    &&& existing.country@ == payload.country@
    &&& existing.postal_code@ == payload.postal_code@
    &&& opt_text(existing.administrative_area_level_1) == opt_text(payload.administrative_area_level_1)
    &&& opt_text(existing.administrative_area_level_2) == opt_text(payload.administrative_area_level_2)
    &&& opt_text(existing.locality) == opt_text(payload.locality)
    &&& opt_text(existing.political) == opt_text(payload.political)
    &&& opt_text(existing.route) == opt_text(payload.route)
    &&& opt_text(existing.street_number) == opt_text(payload.street_number)
    &&& opt_text(existing.address) == opt_text(payload.address)
}

/// Whether a stored address is the one a new address describes; adding an
/// address that is already stored gives back the stored one.
pub fn is_same_address(existing: &UserAddress, payload: &NewUserAddress) -> (res: bool)
    ensures
        res == same_address(*existing, *payload),
{
    existing.user_id == payload.user_id && existing.country == payload.country
        && existing.postal_code == payload.postal_code && same_opt_text(
        &existing.administrative_area_level_1,
        &payload.administrative_area_level_1,
    ) && same_opt_text(&existing.administrative_area_level_2, &payload.administrative_area_level_2)
        && same_opt_text(&existing.locality, &payload.locality) && same_opt_text(
        &existing.political,
        &payload.political,
    ) && same_opt_text(&existing.route, &payload.route) && same_opt_text(
        &existing.street_number,
        &payload.street_number,
    ) && same_opt_text(&existing.address, &payload.address)
}

/// What the service does next while adding or changing a delivery address.
#[derive(Clone, Copy, PartialEq, Eq, Debug, Structural)]
pub enum AddressAction {
    /// Give back the stored address at `index` of the addresses looked at.
    ReturnExisting { index: usize },
    /// Store the new address.
    Insert,
    /// Clear the priority of the user's other addresses.
    ClearPriorityExcept { user_id: UserId, address_id: i32 },
    /// Nothing more to do.
    Done,
}

/// Whether `res` is the first step of adding `payload`: giving back the
/// first address of `existing` that is the one `payload` describes, or
/// storing `payload` where there is none.
pub open spec fn create_step(existing: Seq<UserAddress>, payload: NewUserAddress, res: AddressAction) -> bool {
    match res {
        AddressAction::ReturnExisting { index } => index < existing.len() && same_address(
            existing[index as int],
            payload,
        ) && forall|j: int| 0 <= j < index ==> !same_address(#[trigger] existing[j], payload),
        AddressAction::Insert => forall|j: int|
            0 <= j < existing.len() ==> !same_address(#[trigger] existing[j], payload),
        _ => false,
    }
}

/// The first step of adding an address: an address among `existing` that
/// is the one the new address describes is given back (the first such);
/// otherwise the new address is stored.
pub fn create_address_step(existing: &Vec<UserAddress>, payload: &NewUserAddress) -> (res: AddressAction)
    ensures
        create_step(existing@, *payload, res),
{
    let mut i: usize = 0;
    while i < existing.len()
        invariant
            0 <= i <= existing@.len(),
            forall|j: int| 0 <= j < i ==> !same_address(#[trigger] existing@[j], *payload),
        decreases existing.len() - i,
    {
        if is_same_address(&existing[i], payload) {
            return AddressAction::ReturnExisting { index: i };
        }
        i = i + 1;
    }
    AddressAction::Insert
}

/// The step after a new address is stored: a priority address takes the
/// priority from the user's other addresses.
pub fn after_insert_step(inserted: &UserAddress) -> (res: AddressAction)
    ensures
        res == if inserted.is_priority {
            AddressAction::ClearPriorityExcept { user_id: inserted.user_id, address_id: inserted.id }
        } else {
            AddressAction::Done
        },
{
    if inserted.is_priority {
        AddressAction::ClearPriorityExcept { user_id: inserted.user_id, address_id: inserted.id }
    } else {
        AddressAction::Done
    }
}

/// The step after an address is changed: a change that gives it priority
/// takes the priority from the user's other addresses.
pub fn after_update_step(payload: &UpdateUserAddress, updated: &UserAddress) -> (res: AddressAction)
    ensures
        res == if payload.is_priority == Some(true) {
            AddressAction::ClearPriorityExcept { user_id: updated.user_id, address_id: updated.id }
        } else {
            AddressAction::Done
        },
{
    match payload.is_priority {
        Some(true) => AddressAction::ClearPriorityExcept { user_id: updated.user_id, address_id: updated.id },
        _ => AddressAction::Done,
    }
}

/// Whether `row` stores the new address `payload`.
pub open spec fn stored_as(payload: NewUserAddress, row: UserAddress) -> bool {
    &&& row.user_id == payload.user_id
    &&& row.administrative_area_level_1 == payload.administrative_area_level_1
    &&& row.administrative_area_level_2 == payload.administrative_area_level_2
    &&& row.country == payload.country
    &&& row.locality == payload.locality
    &&& row.political == payload.political
    &&& row.postal_code == payload.postal_code
    &&& row.route == payload.route
    &&& row.street_number == payload.street_number
    &&& row.address == payload.address
    &&& row.is_priority == payload.is_priority
    &&& row.country_code == payload.country_code
}

/// Adding an address that is already stored gives back the stored one: once
/// a new address is stored among the addresses looked at, adding it again
/// returns a stored address (the first equal one) instead of storing it
/// twice.
pub proof fn lemma_adding_twice_returns_stored(
    existing: Seq<UserAddress>,
    payload: NewUserAddress,
    k: int,
    res: AddressAction,
)
    requires
        0 <= k < existing.len(),
        stored_as(payload, existing[k]),
        create_step(existing, payload, res),
    ensures
        res matches AddressAction::ReturnExisting { index } && index <= k,
{
    assert(same_address(existing[k], payload));
}

/// Adding an address never gives back a stored address that differs from
/// it in a compared part: the address given back belongs to the same user
/// and has the same country, postal code, administrative areas, locality,
/// political area, route, street number and address line (an absent part
/// matching only an absent one). So where every stored address differs
/// from the new one in one of these parts, the new address is stored.
pub proof fn lemma_returned_address_agrees_on_every_part(
    existing: Seq<UserAddress>,
    payload: NewUserAddress,
    res: AddressAction,
)
    requires
        create_step(existing, payload, res),
    ensures
        res matches AddressAction::ReturnExisting { index } ==> {
            let e = existing[index as int];
            &&& 0 <= index < existing.len()
            &&& e.user_id == payload.user_id
            &&& e.country@ == payload.country@
            &&& e.postal_code@ == payload.postal_code@
            &&& opt_text(e.administrative_area_level_1) == opt_text(payload.administrative_area_level_1)
            &&& opt_text(e.administrative_area_level_2) == opt_text(payload.administrative_area_level_2)
            &&& opt_text(e.locality) == opt_text(payload.locality)
            &&& opt_text(e.political) == opt_text(payload.political)
            &&& opt_text(e.route) == opt_text(payload.route)
            &&& opt_text(e.street_number) == opt_text(payload.street_number)
            &&& opt_text(e.address) == opt_text(payload.address)
        },
        (forall|j: int|
            0 <= j < existing.len() ==> {
                let e = #[trigger] existing[j];
                ||| e.user_id != payload.user_id
                ||| e.country@ != payload.country@
                ||| e.postal_code@ != payload.postal_code@
                ||| opt_text(e.administrative_area_level_1) != opt_text(payload.administrative_area_level_1)
                ||| opt_text(e.administrative_area_level_2) != opt_text(payload.administrative_area_level_2)
                ||| opt_text(e.locality) != opt_text(payload.locality)
                ||| opt_text(e.political) != opt_text(payload.political)
                ||| opt_text(e.route) != opt_text(payload.route)
                ||| opt_text(e.street_number) != opt_text(payload.street_number)
                ||| opt_text(e.address) != opt_text(payload.address)
            }) ==> res == AddressAction::Insert,
{
    if let AddressAction::ReturnExisting { index } = res {
        let e = existing[index as int];
        assert(same_address(e, payload));
    }
}

/// A field of an address that must not be empty when it is given.
#[derive(Clone, Copy, PartialEq, Eq, Debug, Structural)]
pub enum AddressField {
    Country,
    PostalCode,
    CountryCode,
}

/// Whether an optional text is given and empty.
pub open spec fn given_empty(s: Option<String>) -> bool {
    match s {
        Some(t) => t@.len() == 0,
        None => false,
    }
}

/// The fields that fail their check, in the order of the fields.
pub open spec fn address_errors(country: bool, postal_code: bool, country_code: bool) -> Seq<
    AddressField,
> {
    (if country {
        seq![AddressField::Country]
    } else {
        Seq::empty()
    }) + (if postal_code {
        seq![AddressField::PostalCode]
    } else {
        Seq::empty()
    }) + (if country_code {
        seq![AddressField::CountryCode]
    } else {
        Seq::empty()
    })
}

/// Collects the failing fields in order; `Ok` where none fails.
fn collect_errors(country: bool, postal_code: bool, country_code: bool) -> (res: Result<
    (),
    Vec<AddressField>,
>)
    ensures
        match res {
            Ok(()) => !country && !postal_code && !country_code,
            Err(v) => (country || postal_code || country_code) && v@ == address_errors(
                country,
                postal_code,
                country_code,
            ),
        },
{
    let mut v: Vec<AddressField> = Vec::new();
    if country {
        v.push(AddressField::Country);
    }
    if postal_code {
        v.push(AddressField::PostalCode);
    }
    if country_code {
        v.push(AddressField::CountryCode);
    }
    if v.len() == 0 {
        Ok(())
    } else {
        assert(v@ =~= address_errors(country, postal_code, country_code));
        Err(v)
    }
}

/// Whether an optional text is given and empty.
fn is_given_empty(s: &Option<String>) -> (res: bool)
    ensures
        res == given_empty(*s),
{
    match s {
        Some(t) => t.as_str().is_empty(),
        None => false,
    }
}

/// A new delivery address of a user.
#[derive(Clone, Debug)]
pub struct NewUserAddress {
    pub user_id: UserId,
    pub administrative_area_level_1: Option<String>,
    pub administrative_area_level_2: Option<String>,
    pub country: String,
    pub locality: Option<String>,
    pub political: Option<String>,
    pub postal_code: String,
    pub route: Option<String>,
    pub street_number: Option<String>,
    pub address: Option<String>,
    pub is_priority: bool,
    pub country_code: Option<String>,
}

impl NewUserAddress {
    /// Checks that the country, the postal code and the country code (when
    /// given) are not empty; the error lists the fields that are.
    pub fn validate(&self) -> (res: Result<(), Vec<AddressField>>)
        ensures
            res is Ok <==> (self.country@.len() > 0 && self.postal_code@.len() > 0
                && !given_empty(self.country_code)),
            res matches Err(v) ==> v@ == address_errors(
                self.country@.len() == 0,
                self.postal_code@.len() == 0,
                given_empty(self.country_code),
            ),
    {
        let country = self.country.as_str().is_empty();
        let postal_code = self.postal_code.as_str().is_empty();
        let country_code = is_given_empty(&self.country_code);
        collect_errors(country, postal_code, country_code)
    }
}

/// A change to a delivery address: the fields given are set.
#[derive(Clone, Debug)]
pub struct UpdateUserAddress {
    pub administrative_area_level_1: Option<String>,
    pub administrative_area_level_2: Option<String>,
    pub country: Option<String>,
    pub locality: Option<String>,
    pub political: Option<String>,
    pub postal_code: Option<String>,
    pub route: Option<String>,
    pub street_number: Option<String>,
    pub address: Option<String>,
    pub is_priority: Option<bool>,
    pub country_code: Option<String>,
}

impl UpdateUserAddress {
    /// Checks that the country, the postal code and the country code are not
    /// empty where they are given; the error lists the fields that are.
    pub fn validate(&self) -> (res: Result<(), Vec<AddressField>>)
        ensures
            res is Ok <==> (!given_empty(self.country) && !given_empty(self.postal_code)
                && !given_empty(self.country_code)),
            res matches Err(v) ==> v@ == address_errors(
                given_empty(self.country),
                given_empty(self.postal_code),
                given_empty(self.country_code),
            ),
    {
        let country = is_given_empty(&self.country);
        let postal_code = is_given_empty(&self.postal_code);
        let country_code = is_given_empty(&self.country_code);
        collect_errors(country, postal_code, country_code)
    }
}

} // verus!
