//! The downstream-facing identity record. The interception layer attaches a
//! verified `User` to the request it forwards; handler-side code receives it
//! as a `TelegramUser`, a plain copy it may keep without touching the
//! authoritative record.

use vstd::prelude::*;

use crate::authorizer::{User, UserView};

verus! {

/// The verified identity as handler code sees it.
#[derive(Debug, Clone)]
pub struct TelegramUser {
    pub id: u64,
    pub first_name: String,
    pub last_name: Option<String>,
    pub username: Option<String>,
}

impl View for TelegramUser {
    type V = UserView;

    open spec fn view(&self) -> UserView {
        (
            self.id,
            self.first_name@,
            match self.last_name {
                Option::Some(s) => Option::Some(s@),
                Option::None => Option::None::<Seq<char>>,
            },
            match self.username {
                Option::Some(s) => Option::Some(s@),
                Option::None => Option::None::<Seq<char>>,
            },
        )
    }
}

impl From<User> for TelegramUser {
    /// Carries every field of the verified record over unchanged.
    fn from(user: User) -> (r: TelegramUser) {
        TelegramUser {
            id: user.id,
            first_name: user.first_name,
            last_name: user.last_name,
            username: user.username,
        }
    }
}

impl vstd::std_specs::convert::FromSpecImpl<User> for TelegramUser {
    open spec fn obeys_from_spec() -> bool {
        true
    }

    open spec fn from_spec(user: User) -> TelegramUser {
        TelegramUser {
            id: user.id,
            first_name: user.first_name,
            last_name: user.last_name,
            username: user.username,
        }
    }
}

} // verus!
