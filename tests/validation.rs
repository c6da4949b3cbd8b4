use data_pipeline::error::ValidationError;
use data_pipeline::user::User;

fn user(name: &str) -> User {
    User {
        username: name.to_string(),
        identifier: "id-1".to_string(),
        first_name: "".to_string(),
        last_name: "x".to_string(),
    }
}

#[test]
fn empty_username_is_empty_field() {
    assert_eq!(user("").is_valid(), Err(vec![ValidationError::EmptyField("username".to_string())]));
}

#[test]
fn two_letter_username_is_too_short_with_minimum_two() {
    assert_eq!(user("ab").is_valid(), Err(vec![ValidationError::TooShort("username".to_string(), 2)]));
}

#[test]
fn long_username_is_too_long() {
    let name = "a".repeat(21);
    assert_eq!(user(&name).is_valid(), Err(vec![ValidationError::TooLong("username".to_string(), 20)]));
}

#[test]
fn twenty_letter_username_is_valid() {
    let name = "a".repeat(20);
    assert_eq!(user(&name).is_valid(), Ok(()));
}

#[test]
fn three_letter_username_is_valid_whatever_the_rest() {
    let u = User {
        username: "abc".to_string(),
        identifier: "".to_string(),
        first_name: "".to_string(),
        last_name: "".to_string(),
    };
    assert_eq!(u.is_valid(), Ok(()));
}

#[test]
fn username_length_counts_bytes() {
    // two characters, four bytes
    assert_eq!(user("éé").is_valid(), Ok(()));
}
