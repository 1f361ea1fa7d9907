//! The customer record and the validity rules its fields must satisfy.

use vstd::prelude::*;
use vstd::string::StrSliceExecFns;

verus! {

/// One stored entity: an identifier together with the operator-entered
/// display name, email address and phone number.
///
/// The identifier is assigned by the store on insertion and never changes
/// afterwards; the three text fields arrive already trimmed.
pub struct Customer {
    pub id: u32,
    pub name: String,
    pub email: String,
    pub phone: String,
}

/// Mathematical image of a [`Customer`]: the identifier and the three text
/// fields as character sequences.
pub ghost struct CustomerView {
    pub id: u32,
    pub name: Seq<char>,
    pub email: Seq<char>,
    pub phone: Seq<char>,
}

impl View for Customer {
    type V = CustomerView;

    open spec fn view(&self) -> CustomerView {
        CustomerView { id: self.id, name: self.name@, email: self.email@, phone: self.phone@ }
    }
}

impl Clone for Customer {
    /// A clone is equal to the original, field for field.
    fn clone(&self) -> (c: Self)
        ensures
            c == *self,
    {
        Customer {
            id: self.id,
            name: self.name.clone(),
            email: self.email.clone(),
            phone: self.phone.clone(),
        }
    }
}

/// An acceptable email address holds at least one `@` character.
/// (The empty string holds none, so it is rejected by this rule alone.)
pub open spec fn valid_email(e: Seq<char>) -> bool {
    e.contains('@')
}

/// A record may persist in the store only with a non-empty name, an
/// acceptable email and a non-empty phone number.
pub open spec fn valid_record(c: CustomerView) -> bool {
    c.name.len() > 0 && valid_email(c.email) && c.phone.len() > 0
}

/// Reports whether `s` holds an `@` character, i.e. whether it is
/// acceptable as an email address.
pub fn has_at_sign(s: &str) -> (b: bool)
    ensures
        b == valid_email(s@),
{
    let n: usize = s.unicode_len();
    let mut i: usize = 0;
    while i < n
        invariant
            n == s@.len(),
            0 <= i <= n,
            forall|j: int| 0 <= j < i ==> s@[j] != '@',
        decreases n - i,
    {
        if s.get_char(i) == '@' {
            assert(s@[i as int] == '@');
            return true;
        }
        i += 1;
    }
    false
}

} // verus!
