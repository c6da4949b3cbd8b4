use vstd::prelude::*;
use crate::error::{ValidationError, ValidationResult};
use crate::record::{Record, field_of};
use vstd::utf8::encode_utf8;

verus! {

/// The validated domain entity built from a row.
#[derive(Debug, Clone)]
pub struct User {
    pub username: String,
    pub identifier: String,
    pub first_name: String,
    pub last_name: String,
}

/// The four attributes of a `User` as text.
pub struct UserView {
    pub username: Seq<char>,
    pub identifier: Seq<char>,
    pub first_name: Seq<char>,
    pub last_name: Seq<char>,
}

impl View for User {
    type V = UserView;

    open spec fn view(&self) -> UserView {
        UserView {
            username: self.username@,
            identifier: self.identifier@,
            first_name: self.first_name@,
            last_name: self.last_name@,
        }
    }
}

/// The entity that a row describes: fields 0 to 3, empty where missing.
pub open spec fn user_of(fields: Seq<Seq<char>>) -> UserView {
    UserView {
        username: field_of(fields, 0),
        identifier: field_of(fields, 1),
        first_name: field_of(fields, 2),
        last_name: field_of(fields, 3),
    }
}

/// Builds the entity that `record` describes.
pub fn generate_user(record: Record) -> (u: User)
    ensures
        u@ == user_of(record@),
{
    User {
        username: record.get(0).to_owned(),
        identifier: record.get(1).to_owned(),
        first_name: record.get(2).to_owned(),
        last_name: record.get(3).to_owned(),
    }
}

/// Length in bytes of the UTF-8 encoding of a text.
pub open spec fn byte_len(s: Seq<char>) -> nat {
    encode_utf8(s).len()
}

/// What validating an entity with this username reports: the empty name,
/// a name under three bytes (reported with minimum 2) and a name over twenty
/// bytes are each one error; nothing else is checked.
pub open spec fn username_error(name: Seq<char>) -> Option<(int, nat)> {
    if name.len() == 0 {
        Some((0, 0))
    } else if byte_len(name) < 3 {
        Some((1, 2))
    } else if byte_len(name) > 20 {
        Some((2, 20))
    } else {
        None
    }
}

/// `e` is the error of kind `k` (0 empty, 1 too short, 2 too long) on the
/// username attribute, with bound `n`.
pub open spec fn is_username_error(e: ValidationError, k: int, n: nat) -> bool {
    match e {
        ValidationError::EmptyField(f) => k == 0 && f@ == "username"@,
        ValidationError::TooShort(f, m) => k == 1 && f@ == "username"@ && m == n,
        ValidationError::TooLong(f, m) => k == 2 && f@ == "username"@ && m == n,
        ValidationError::InvalidFormat(_, _) => false,
    }
}

impl User {
    /// Checks the username: empty, too short or too long, at most one error.
    pub fn is_valid(&self) -> (r: ValidationResult)
        ensures
            r is Ok <==> username_error(self.username@) is None,
            r is Err ==> r->Err_0.len() == 1 && is_username_error(
                r->Err_0[0],
                username_error(self.username@)->Some_0.0,
                username_error(self.username@)->Some_0.1,
            ),
    {
        let mut errors: Vec<ValidationError> = Vec::new();
        let name = self.username.as_str();
        let n: usize = name.as_bytes().len();
        proof {
            reveal_strlit("username");
            reveal_strlit("");
        }
        if name.is_empty() {
            errors.push(ValidationError::EmptyField("username".to_owned()));
        } else if n < 3 {
            errors.push(ValidationError::TooShort("username".to_owned(), 2));
        } else if n > 20 {
            errors.push(ValidationError::TooLong("username".to_owned(), 20));
        }
        if errors.len() == 0 {
            Ok(())
        } else {
            Err(errors)
        }
    }
}

} // verus!
