use vstd::prelude::*;

verus! {

/// Where the process listens and where it finds the broker.
#[derive(Debug, PartialEq, Eq)]
pub struct AppConfig {
    pub server_addr: String,
    pub redis_url: String,
    pub ws_addr: String,
}

impl Clone for AppConfig {
    fn clone(&self) -> (copy: Self)
        ensures
            copy == *self,
    {
        AppConfig {
            server_addr: self.server_addr.clone(),
            redis_url: self.redis_url.clone(),
            ws_addr: self.ws_addr.clone(),
        }
    }
}

} // verus!
