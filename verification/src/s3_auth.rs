//! The credentials that the S3 layer knows.

use vstd::prelude::*;

use crate::text;

verus! {

/// One pair of keys.
#[derive(Clone, Debug)]
pub struct AbixioAuth {
    pub access_key: String,
    pub secret_key: String,
}

impl AbixioAuth {
    /// The given pair of keys.
    pub fn new(access_key: String, secret_key: String) -> (r: Self)
        ensures
            r.access_key == access_key,
            r.secret_key == secret_key,
    {
        AbixioAuth { access_key, secret_key }
    }

    /// The secret key that belongs to an access key, if it is known.
    pub fn get_secret_key(&self, access_key: &str) -> (r: Option<String>)
        ensures
            match r {
                Some(s) => access_key@ == self.access_key@ && s@ == self.secret_key@,
                None => access_key@ != self.access_key@,
            },
    {
        if text::str_eq(access_key, self.access_key.as_str()) {
            Some(self.secret_key.clone())
        } else {
            None
        }
    }
}

} // verus!
