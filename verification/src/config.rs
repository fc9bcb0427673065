//! Process configuration. Reading the environment or the command line
//! happens outside; the library validates the values and derives what
//! the engine needs from them.
use vstd::prelude::*;

use crate::error::ImageError;
use crate::text::{dec_of, u64_to_string};

verus! {

/// The service's configuration values.
#[derive(Debug)]
pub struct Config {
    /// Address the server binds to.
    pub host: String,
    /// Port the server binds to.
    pub port: u16,
    /// Directory holding the backing image files.
    pub images_path: String,
    /// Externally visible base URL; derived from host and port when
    /// absent.
    pub base_url: Option<String>,
    /// IP-limiter requests per window.
    pub rate_limit_requests: u32,
    /// IP-limiter window, in seconds.
    pub rate_limit_window_secs: u64,
    /// Response-cache capacity.
    pub cache_size: usize,
    /// Response-cache time-to-live, in seconds.
    pub cache_ttl_secs: u64,
    /// The admin key; must not be empty.
    pub admin_key: String,
}

/// The base URL a configuration denotes: the configured one, or
/// `http://host:port`.
pub open spec fn base_url_spec(c: Config) -> Seq<char> {
    match c.base_url {
        Some(b) => b@,
        None => "http://"@ + c.host@ + ":"@ + dec_of(c.port as nat),
    }
}

impl Config {
    /// Validate freshly loaded configuration values: the admin key
    /// must not be empty.
    pub fn new(
        host: String,
        port: u16,
        images_path: String,
        base_url: Option<String>,
        rate_limit_requests: u32,
        rate_limit_window_secs: u64,
        cache_size: usize,
        cache_ttl_secs: u64,
        admin_key: String,
    ) -> (r: Result<Config, ImageError>)
        ensures
            match r {
                Ok(c) => admin_key@.len() > 0 && c.host == host && c.port == port && c.images_path
                    == images_path && c.base_url == base_url && c.rate_limit_requests
                    == rate_limit_requests && c.rate_limit_window_secs == rate_limit_window_secs
                    && c.cache_size == cache_size && c.cache_ttl_secs == cache_ttl_secs
                    && c.admin_key == admin_key,
                Err(ImageError::Unauthorized) => admin_key@.len() == 0,
                Err(_) => false,
            },
    {
        if admin_key.unicode_len() == 0 {
            return Err(ImageError::Unauthorized);
        }
        Ok(
            Config {
                host,
                port,
                images_path,
                base_url,
                rate_limit_requests,
                rate_limit_window_secs,
                cache_size,
                cache_ttl_secs,
                admin_key,
            },
        )
    }

    /// The response cache's time-to-live in milliseconds, saturating.
    pub fn cache_ttl(&self) -> (r: u64)
        ensures
            r == if self.cache_ttl_secs * 1000 > u64::MAX {
                u64::MAX
            } else {
                (self.cache_ttl_secs * 1000) as u64
            },
    {
        if self.cache_ttl_secs > u64::MAX / 1000 {
            proof {
                assert(self.cache_ttl_secs * 1000 > u64::MAX) by (nonlinear_arith)
                    requires
                        self.cache_ttl_secs > u64::MAX / 1000,
                ;
            }
            u64::MAX
        } else {
            proof {
                assert(self.cache_ttl_secs * 1000 <= u64::MAX) by (nonlinear_arith)
                    requires
                        self.cache_ttl_secs <= u64::MAX / 1000,
                ;
            }
            self.cache_ttl_secs * 1000
        }
    }

    /// The externally visible base URL.
    pub fn get_base_url(&self) -> (r: String)
        ensures
            r@ == base_url_spec(*self),
    {
        match &self.base_url {
            Some(b) => b.clone(),
            None => {
                let mut url = "http://".to_owned();
                url.append(self.host.as_str());
                url.append(":");
                let port = u64_to_string(self.port as u64);
                url.append(port.as_str());
                url
            },
        }
    }
}

} // verus!
