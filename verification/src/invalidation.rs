//! Requests to purge the cache.
use crate::model::optional_view;
use crate::text::has_prefix;
use vstd::prelude::*;

verus! {

/// The path that purge requests are posted to.
pub const INVALIDATION_PATH: &'static str = "/_cextauthz/cache/invalidate";

/// The header that carries the secret of a purge request.
pub const INVALIDATION_SECRET_HEADER: &'static str = "x-cextauthz-invalidation-secret";

/// The version of purge requests.
pub const MESSAGE_VERSION: u32 = 1;

/// What to purge.
#[derive(Clone, Debug, Eq, PartialEq)]
pub enum InvalidationOp {
    /// One key.
    PurgeKey,
    /// The whole cache.
    PurgeAll,
}

/// A request to purge the cache.
#[derive(Clone, Debug, Eq, PartialEq)]
pub struct InvalidationRequest {
    pub version: u32,
    pub op: InvalidationOp,
    pub key: Option<String>,
}

/// The mathematical [`InvalidationRequest`].
pub struct InvalidationRequestModel {
    pub version: u32,
    pub op: InvalidationOp,
    pub key: Option<Seq<char>>,
}

impl View for InvalidationRequest {
    type V = InvalidationRequestModel;

    open spec fn view(&self) -> InvalidationRequestModel {
        InvalidationRequestModel {
            version: self.version,
            op: self.op,
            key: optional_view(self.key),
        }
    }
}

/// Whether a text is the key of a cached decision by its form.
pub open spec fn is_cache_key(key: Seq<char>) -> bool {
    "cache:"@.is_prefix_of(key)
}

/// What is wrong with a purge request, if anything is.
pub open spec fn fault_of(request: InvalidationRequestModel) -> Option<Seq<char>> {
    if request.version != MESSAGE_VERSION {
        Some("unsupported version"@)
    } else if request.op is PurgeKey {
        match request.key {
            None => Some("purge_key requires key"@),
            Some(key) => if is_cache_key(key) {
                None
            } else {
                Some("invalid cache key"@)
            },
        }
    } else {
        None
    }
}

impl InvalidationRequest {
    /// Checks the version and, where one key is to be purged, that it is there and is one.
    pub fn validate(&self) -> (valid: Result<(), &'static str>)
        ensures
            match valid {
                Ok(()) => fault_of(self@) is None,
                Err(fault) => fault_of(self@) == Some(fault@),
            },
    {
        if self.version != MESSAGE_VERSION {
            return Err("unsupported version");
        }
        match self.op {
            InvalidationOp::PurgeKey => match &self.key {
                None => Err("purge_key requires key"),
                Some(key) => if has_prefix(key.as_str(), "cache:") {
                    Ok(())
                } else {
                    Err("invalid cache key")
                },
            },
            InvalidationOp::PurgeAll => Ok(()),
        }
    }

    /// The purge request that a body held, from what reading the body as JSON gave. It is the
    /// one that was read, unless nothing could be read or it is not valid.
    pub fn parse(read: Result<Self, serde_json::Error>) -> (parsed: Result<Self, &'static str>)
        ensures
            match parsed {
                Ok(request) => read == Ok::<Self, serde_json::Error>(request) && fault_of(
                    request@,
                ) is None,
                Err(fault) => match read {
                    Ok(request) => fault_of(request@) == Some(fault@),
                    Err(_) => fault@ == "invalid json"@,
                },
            },
    {
        match read {
            Ok(request) => match request.validate() {
                Ok(()) => Ok(request),
                Err(fault) => Err(fault),
            },
            Err(_) => Err("invalid json"),
        }
    }
}

} // verus!
