//! The customer store: a collection of records keyed by identifier, with an
//! auto-incrementing identifier allocator and the validation rules of the
//! address book.

use vstd::prelude::*;
use crate::record::{Customer, CustomerView, valid_email, valid_record, has_at_sign};

verus! {

/// Why an operation was refused. All are recoverable: the store is left
/// exactly as it was.
#[derive(Clone, Copy, Debug, PartialEq, Eq, Structural)]
pub enum StoreError {
    /// The name or the phone number was empty.
    EmptyField,
    /// The email did not hold an `@` character.
    InvalidEmail,
    /// The email is already used by another stored record.
    DuplicateEmail,
    /// No record carries the requested identifier.
    NotFound,
}

/// How a confirmation-gated operation ended: committed, or deliberately
/// declined by the operator (a no-op, not an error).
#[derive(Clone, Copy, Debug, PartialEq, Eq, Structural)]
pub enum Outcome {
    Applied,
    Cancelled,
}

/// Mathematical image of the store: the records in storage order (which the
/// store keeps ascending by identifier) and the next identifier to issue.
pub ghost struct StoreView {
    pub records: Seq<CustomerView>,
    pub next_id: u32,
}

/// The images of a sequence of records.
pub open spec fn views_of(v: Seq<Customer>) -> Seq<CustomerView> {
    Seq::new(v.len(), |i: int| v[i]@)
}

/// Some stored record carries identifier `id`.
pub open spec fn contains_id(s: Seq<CustomerView>, id: u32) -> bool {
    exists|i: int| 0 <= i < s.len() && s[i].id == id
}

/// The position of the record carrying `id` (meaningful when `contains_id`).
pub open spec fn index_of_id(s: Seq<CustomerView>, id: u32) -> int {
    choose|i: int| 0 <= i < s.len() && s[i].id == id
}

/// The record carrying `id` (meaningful when `contains_id`).
pub open spec fn record_of(s: Seq<CustomerView>, id: u32) -> CustomerView {
    s[index_of_id(s, id)]
}

/// Some stored record uses exactly this email.
pub open spec fn email_taken(s: Seq<CustomerView>, e: Seq<char>) -> bool {
    exists|i: int| 0 <= i < s.len() && s[i].email == e
}

/// Some stored record other than the one carrying `id` uses exactly this email.
pub open spec fn email_taken_by_other(s: Seq<CustomerView>, id: u32, e: Seq<char>) -> bool {
    exists|i: int| 0 <= i < s.len() && s[i].id != id && s[i].email == e
}

/// The images of the optional replacement fields handed to `edit`.
pub open spec fn opt_text(o: Option<String>) -> Option<Seq<char>> {
    match o {
        Option::Some(s) => Option::Some(s@),
        Option::None => Option::None,
    }
}

/// A replacement field actually supplies a value only when it is present
/// and non-empty: a blank entry means "keep the current value".
pub open spec fn supplied(o: Option<Seq<char>>) -> bool {
    match o {
        Option::Some(v) => v.len() > 0,
        Option::None => false,
    }
}

/// The value a field has after an edit: the supplied replacement, or the
/// current value when none was supplied.
pub open spec fn field_value(cur: Seq<char>, o: Option<Seq<char>>) -> Seq<char> {
    match o {
        Option::Some(v) => if v.len() > 0 {
            v
        } else {
            cur
        },
        Option::None => cur,
    }
}

/// The candidate record an edit stages: the same identifier, each field
/// replaced where a replacement was supplied and kept where it was not.
pub open spec fn edited_record(
    c: CustomerView,
    n: Option<Seq<char>>,
    e: Option<Seq<char>>,
    p: Option<Seq<char>>,
) -> CustomerView {
    CustomerView {
        id: c.id,
        name: field_value(c.name, n),
        email: field_value(c.email, e),
        phone: field_value(c.phone, p),
    }
}

/// Identifiers strictly increase along the sequence; in particular they are
/// pairwise distinct.
pub open spec fn ids_ascending(s: Seq<CustomerView>) -> bool {
    forall|i: int, j: int| 0 <= i < j < s.len() ==> #[trigger] s[i].id < #[trigger] s[j].id
}

/// Emails are pairwise distinct across the stored records.
pub open spec fn emails_unique(s: Seq<CustomerView>) -> bool {
    forall|i: int, j: int| 0 <= i < j < s.len() ==> #[trigger] s[i].email != #[trigger] s[j].email
}

/// The in-memory collection of customer records plus the identifier
/// allocator. Records are held sorted ascending by identifier.
pub struct CustomerStore {
    customers: Vec<Customer>,
    next_id: u32,
}

impl View for CustomerStore {
    type V = StoreView;

    closed spec fn view(&self) -> StoreView {
        StoreView { records: views_of(self.customers@), next_id: self.next_id }
    }
}

impl CustomerStore {
    /// Well-formedness: records sorted strictly ascending by identifier,
    /// emails pairwise distinct, every record valid, every identifier below
    /// the allocator's next value, and the allocator at least 1.
    pub open spec fn wf(self) -> bool {
        &&& ids_ascending(self@.records)
        &&& emails_unique(self@.records)
        &&& forall|i: int| 0 <= i < self@.records.len() ==> valid_record(#[trigger] self@.records[i])
        &&& forall|i: int| 0 <= i < self@.records.len() ==> (#[trigger] self@.records[i]).id < self@.next_id
        &&& self@.next_id >= 1
    }

    /// An empty store whose allocator starts at identifier 1.
    pub fn new() -> (s: CustomerStore)
        ensures
            s.wf(),
            s@.records == Seq::<CustomerView>::empty(),
            s@.next_id == 1,
    {
        let s = CustomerStore { customers: Vec::new(), next_id: 1 };
        proof {
            assert(s@.records =~= Seq::<CustomerView>::empty());
        }
        s
    }

    /// How many records are currently stored.
    pub fn len(&self) -> (n: usize)
        ensures
            n == self@.records.len(),
    {
        self.customers.len()
    }

    /// The identifier the next successful add will be given.
    pub fn peek_next_id(&self) -> (n: u32)
        ensures
            n == self@.next_id,
    {
        self.next_id
    }

    /// Position of the record carrying `id`, if any. Because identifiers are
    /// pairwise distinct in a well-formed store, the found position is the
    /// one `index_of_id` denotes.
    fn find_index(&self, id: u32) -> (r: Option<usize>)
        requires
            self.wf(),
        ensures
            match r {
                Some(i) => 0 <= i < self@.records.len() && self@.records[i as int].id == id
                    && i as int == index_of_id(self@.records, id),
                None => !contains_id(self@.records, id),
            },
    {
        let n = self.customers.len();
        let mut i: usize = 0;
        while i < n
            invariant
                self.wf(),
                n == self@.records.len(),
                0 <= i <= n,
                forall|j: int| 0 <= j < i ==> (#[trigger] self@.records[j]).id != id,
            decreases n - i,
        {
            if self.customers[i].id == id {
                proof {
                    let s = self@.records;
                    assert(s[i as int].id == id);
                    assert(contains_id(s, id));
                    let k = index_of_id(s, id);
                    if k < i as int {
                        assert(s[k].id < s[i as int].id);
                    } else if k > i as int {
                        assert(s[i as int].id < s[k].id);
                    }
                }
                return Some(i);
            }
            i += 1;
        }
        None
    }

    /// Look one record up by identifier; no mutation.
    pub fn get(&self, id: u32) -> (r: Option<&Customer>)
        requires
            self.wf(),
        ensures
            match r {
                Some(c) => contains_id(self@.records, id) && c@ == record_of(self@.records, id)
                    && c@.id == id,
                None => !contains_id(self@.records, id),
            },
    {
        match self.find_index(id) {
            Some(i) => Some(&self.customers[i]),
            None => None,
        }
    }

    /// Validate the three fields and, when all four checks pass, insert a
    /// new record under the next identifier and advance the allocator by
    /// exactly 1. On any refusal the store is left exactly as it was.
    ///
    /// Checks, in the order their errors are reported: empty name, email
    /// without `@`, email already stored, empty phone.
    pub fn add(&mut self, name: String, email: String, phone: String) -> (r: Result<
        u32,
        StoreError,
    >)
        requires
            old(self).wf(),
            old(self)@.next_id < u32::MAX,
        ensures
            final(self).wf(),
            final(self)@.next_id >= old(self)@.next_id,
            ({
                let s0 = old(self)@;
                if name@.len() == 0 {
                    r == Err::<u32, StoreError>(StoreError::EmptyField) && *final(self) == *old(
                        self,
                    )
                } else if !valid_email(email@) {
                    r == Err::<u32, StoreError>(StoreError::InvalidEmail) && *final(self) == *old(
                        self,
                    )
                } else if email_taken(s0.records, email@) {
                    r == Err::<u32, StoreError>(StoreError::DuplicateEmail) && *final(self)
                        == *old(self)
                } else if phone@.len() == 0 {
                    r == Err::<u32, StoreError>(StoreError::EmptyField) && *final(self) == *old(
                        self,
                    )
                } else {
                    &&& r == Ok::<u32, StoreError>(s0.next_id)
                    &&& !contains_id(s0.records, s0.next_id)
                    &&& final(self)@.records == s0.records.push(
                        (CustomerView { id: s0.next_id, name: name@, email: email@, phone: phone@ }),
                    )
                    &&& final(self)@.next_id == s0.next_id + 1
                }
            }),
    {
        if name.as_str().is_empty() {
            return Err(StoreError::EmptyField);
        }
        if !has_at_sign(email.as_str()) {
            return Err(StoreError::InvalidEmail);
        }
        if self.email_in_use(&email) {
            return Err(StoreError::DuplicateEmail);
        }
        if phone.as_str().is_empty() {
            return Err(StoreError::EmptyField);
        }
        let id = self.next_id;
        let c = Customer { id, name, email, phone };
        proof {
            let s0 = self@.records;
            assert forall|j: int| 0 <= j < s0.len() implies (#[trigger] s0[j]).id != id by {
                assert(s0[j].id < self@.next_id);
            }
            assert(views_of(self.customers@.push(c)) =~= s0.push(c@));
        }
        self.customers.push(c);
        self.next_id = self.next_id + 1;
        Ok(id)
    }

    /// Replace the fields of the record carrying `id` with the supplied
    /// values, keeping each field whose replacement is absent or blank. The
    /// replacement is staged first and committed atomically, and only when
    /// the operator has confirmed; declining confirmation is a no-op
    /// outcome. The identifier itself is never altered. On any refusal the
    /// store is left exactly as it was.
    ///
    /// A supplied email must hold an `@` and must not be used by a record
    /// *other than* this one; re-supplying the record's own email succeeds.
    pub fn edit(
        &mut self,
        id: u32,
        new_name: Option<String>,
        new_email: Option<String>,
        new_phone: Option<String>,
        confirmed: bool,
    ) -> (r: Result<Outcome, StoreError>)
        requires
            old(self).wf(),
        ensures
            final(self).wf(),
            ({
                let s0 = old(self)@;
                let nn = opt_text(new_name);
                let ne = opt_text(new_email);
                let np = opt_text(new_phone);
                if !contains_id(s0.records, id) {
                    r == Err::<Outcome, StoreError>(StoreError::NotFound) && *final(self) == *old(
                        self,
                    )
                } else {
                    let cand = edited_record(record_of(s0.records, id), nn, ne, np);
                    if supplied(ne) && !valid_email(cand.email) {
                        r == Err::<Outcome, StoreError>(StoreError::InvalidEmail) && *final(self)
                            == *old(self)
                    } else if supplied(ne) && email_taken_by_other(s0.records, id, cand.email) {
                        r == Err::<Outcome, StoreError>(StoreError::DuplicateEmail) && *final(self)
                            == *old(self)
                    } else if !confirmed {
                        r == Ok::<Outcome, StoreError>(Outcome::Cancelled) && *final(self) == *old(
                            self,
                        )
                    } else {
                        &&& r == Ok::<Outcome, StoreError>(Outcome::Applied)
                        &&& final(self)@.records == s0.records.update(
                            index_of_id(s0.records, id),
                            cand,
                        )
                        &&& contains_id(final(self)@.records, id)
                        &&& record_of(final(self)@.records, id) == cand
                        &&& final(self)@.records.len() == s0.records.len()
                        &&& final(self)@.next_id == s0.next_id
                    }
                }
            }),
    {
        let ghost nn = opt_text(new_name);
        let ghost ne = opt_text(new_email);
        let ghost np = opt_text(new_phone);
        let idx = match self.find_index(id) {
            Some(i) => i,
            None => {
                return Err(StoreError::NotFound);
            },
        };
        let cand_name: String = match new_name {
            Some(s) => if s.as_str().is_empty() {
                self.customers[idx].name.clone()
            } else {
                s
            },
            None => self.customers[idx].name.clone(),
        };
        let cand_email: String = match new_email {
            Some(e) => if e.as_str().is_empty() {
                self.customers[idx].email.clone()
            } else {
                if !has_at_sign(e.as_str()) {
                    return Err(StoreError::InvalidEmail);
                }
                if self.email_in_use_by_other(&e, id) {
                    return Err(StoreError::DuplicateEmail);
                }
                e
            },
            None => self.customers[idx].email.clone(),
        };
        let cand_phone: String = match new_phone {
            Some(p) => if p.as_str().is_empty() {
                self.customers[idx].phone.clone()
            } else {
                p
            },
            None => self.customers[idx].phone.clone(),
        };
        if !confirmed {
            return Ok(Outcome::Cancelled);
        }
        let cand = Customer { id, name: cand_name, email: cand_email, phone: cand_phone };
        proof {
            let s0 = self@.records;
            let k = idx as int;
            let cv = cand@;
            assert(cv == edited_record(record_of(s0, id), nn, ne, np));
            let s1 = s0.update(k, cv);
            assert(views_of(self.customers@.update(k, cand)) =~= s1);
            // Identifiers are untouched, so order and the allocator bound carry over.
            assert forall|j: int| 0 <= j < s1.len() implies (#[trigger] s1[j]).id == s0[j].id by {}
            // The committed email is either the record's own or one no other
            // record uses, so emails stay pairwise distinct.
            assert forall|i: int, j: int| 0 <= i < j < s1.len() implies #[trigger] s1[i].email
                != #[trigger] s1[j].email by {
                if i != k && j != k {
                    assert(s0[i].email != s0[j].email);
                } else {
                    let o = if i == k {
                        j
                    } else {
                        i
                    };
                    assert(s0[o].id != id) by {
                        if o < k {
                            assert(s0[o].id < s0[k].id);
                        } else {
                            assert(s0[k].id < s0[o].id);
                        }
                    }
                    if !supplied(ne) || cv.email == s0[k].email {
                        assert(cv.email == s0[k].email);
                    } else {
                        assert(!email_taken_by_other(s0, id, cv.email));
                    }
                }
            }
            // The record keeps its position, so the lookup index is unchanged.
            assert forall|j: int| 0 <= j < s1.len() && (#[trigger] s1[j]).id == id implies j == k by {
                if j < k {
                    assert(s0[j].id < s0[k].id);
                } else if j > k {
                    assert(s0[k].id < s0[j].id);
                }
            }
            assert(s1[k].id == id);
            assert(contains_id(s1, id));
            assert(index_of_id(s1, id) == k);
        }
        self.customers[idx] = cand;
        Ok(Outcome::Applied)
    }

    /// Every stored record, sorted strictly ascending by identifier. An
    /// empty store yields an empty sequence; no mutation.
    pub fn list_all(&self) -> (r: Vec<Customer>)
        requires
            self.wf(),
        ensures
            r@.len() == self@.records.len(),
            forall|i: int| 0 <= i < r@.len() ==> (#[trigger] r@[i])@ == self@.records[i],
            ids_ascending(views_of(r@)),
    {
        let mut out: Vec<Customer> = Vec::new();
        let n = self.customers.len();
        let mut i: usize = 0;
        while i < n
            invariant
                self.wf(),
                n == self@.records.len(),
                0 <= i <= n,
                out@.len() == i,
                forall|j: int| 0 <= j < i ==> (#[trigger] out@[j])@ == self@.records[j],
            decreases n - i,
        {
            out.push(self.customers[i].clone());
            i += 1;
        }
        out
    }

    /// Whether any stored record uses exactly this email.
    fn email_in_use(&self, email: &String) -> (b: bool)
        ensures
            b == email_taken(self@.records, email@),
    {
        let n = self.customers.len();
        let mut i: usize = 0;
        while i < n
            invariant
                n == self@.records.len(),
                0 <= i <= n,
                forall|j: int| 0 <= j < i ==> (#[trigger] self@.records[j]).email != email@,
            decreases n - i,
        {
            if self.customers[i].email == *email {
                assert(self@.records[i as int].email == email@);
                return true;
            }
            i += 1;
        }
        false
    }

    /// Delete the record carrying `id`, but only when the operator has
    /// confirmed. Declining confirmation is a deliberate no-op outcome, not
    /// an error, and leaves the store exactly as it was.
    pub fn remove(&mut self, id: u32, confirmed: bool) -> (r: Result<Outcome, StoreError>)
        requires
            old(self).wf(),
        ensures
            final(self).wf(),
            ({
                let s0 = old(self)@;
                if !contains_id(s0.records, id) {
                    r == Err::<Outcome, StoreError>(StoreError::NotFound) && *final(self) == *old(
                        self,
                    )
                } else if !confirmed {
                    r == Ok::<Outcome, StoreError>(Outcome::Cancelled) && *final(self) == *old(
                        self,
                    )
                } else {
                    &&& r == Ok::<Outcome, StoreError>(Outcome::Applied)
                    &&& final(self)@.records == s0.records.remove(index_of_id(s0.records, id))
                    &&& final(self)@.records.len() == s0.records.len() - 1
                    &&& !contains_id(final(self)@.records, id)
                    &&& final(self)@.next_id == s0.next_id
                }
            }),
    {
        let idx = match self.find_index(id) {
            Some(i) => i,
            None => {
                return Err(StoreError::NotFound);
            },
        };
        if !confirmed {
            return Ok(Outcome::Cancelled);
        }
        proof {
            let s0 = self@.records;
            let k = idx as int;
            s0.remove_ensures(k);
            assert(views_of(self.customers@.remove(k)) =~= s0.remove(k));
            assert forall|j: int| 0 <= j < s0.remove(k).len() implies (#[trigger] s0.remove(
                k,
            )[j]).id != id by {
                if j < k {
                    assert(s0.remove(k)[j] == s0[j]);
                    assert(s0[j].id < s0[k].id);
                } else {
                    assert(s0.remove(k)[j] == s0[j + 1]);
                    assert(s0[k].id < s0[j + 1].id);
                }
            }
        }
        self.customers.remove(idx);
        Ok(Outcome::Applied)
    }

    /// Whether a stored record *other than* the one carrying `id` uses
    /// exactly this email.
    fn email_in_use_by_other(&self, email: &String, id: u32) -> (b: bool)
        ensures
            b == email_taken_by_other(self@.records, id, email@),
    {
        let n = self.customers.len();
        let mut i: usize = 0;
        while i < n
            invariant
                n == self@.records.len(),
                0 <= i <= n,
                forall|j: int| 0 <= j < i ==> !((#[trigger] self@.records[j]).id != id
                    && self@.records[j].email == email@),
            decreases n - i,
        {
            if self.customers[i].id != id && self.customers[i].email == *email {
                assert(self@.records[i as int].id != id && self@.records[i as int].email == email@);
                return true;
            }
            i += 1;
        }
        false
    }
}

} // verus!
