use vstd::prelude::*;

verus! {

/// What to do with a password typed for a new encryption.
#[derive(Clone, Copy, Debug, PartialEq, Eq, Structural)]
pub enum PasswordCheck {
    /// Nothing was typed: ask again.
    Empty,
    /// Not yet confirmed: ask for it a second time.
    NeedsConfirmation,
    /// The confirmation differs: ask again from the start.
    Mismatch,
    /// Confirmed: use it.
    Accepted,
}

/// Decides on a new password and, once given, its confirmation.
pub fn check_new_password(password: &str, confirmation: Option<&str>) -> (r: PasswordCheck)
    ensures
        password@.len() == 0 ==> r == PasswordCheck::Empty,
        password@.len() > 0 && confirmation is None ==> r == PasswordCheck::NeedsConfirmation,
        password@.len() > 0 && confirmation is Some ==> r == (if confirmation->Some_0@ == password@ {
            PasswordCheck::Accepted
        } else {
            PasswordCheck::Mismatch
        }),
{
    if password.is_empty() {
        return PasswordCheck::Empty;
    }
    match confirmation {
        None => PasswordCheck::NeedsConfirmation,
        Some(c) => {
            let typed = password.to_owned();
            let again = c.to_owned();
            if typed == again {
                PasswordCheck::Accepted
            } else {
                PasswordCheck::Mismatch
            }
        },
    }
}

} // verus!
