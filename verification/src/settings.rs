use vstd::prelude::*;

verus! {

/// The one user-settings row the engine reads, reduced to plain values.
pub struct UserSettings {
    pub id: u64,
    pub name: String,
    pub home_currency: String,
}

pub struct UserSettingsService;

impl UserSettingsService {
    /// Resolves the home currency: the first settings row carries it, and
    /// without any settings row there is nothing meaningful to sync.
    pub fn home_currency_of(settings: &Vec<UserSettings>) -> (r: Option<String>)
        ensures
            match r {
                Some(c) => settings@.len() > 0 && c@ == settings@[0].home_currency@,
                None => settings@.len() == 0,
            },
    {
        if settings.len() == 0 {
            None
        } else {
            Some(settings[0].home_currency.clone())
        }
    }
}

} // verus!
