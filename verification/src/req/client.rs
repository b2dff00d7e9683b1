//! How a client is configured.

use crate::req::error::{Error, Result};
use crate::text;
use std::time::Duration;
use vstd::prelude::*;
use vstd::string::StringExecFns;

verus! {

/// Where the API is reached, unless configured otherwise.
pub const DEFAULT_BASE_URL: &'static str = "https://api.deepseek.com";

/// A configured client: whom it speaks for, and where the API is reached.
#[derive(Debug, Clone, PartialEq, Eq)]
pub struct Client {
    /// The API key.
    pub api_key: String,
    /// The base URL, without slashes at its end.
    pub base_url: String,
    /// A global timeout covering the whole request/response, if any.
    pub timeout: Option<Duration>,
}

/// Builder for [`Client`].
#[derive(Debug, Clone, PartialEq, Eq)]
pub struct ClientBuilder {
    /// The API key, once set.
    pub api_key: Option<String>,
    /// The base URL.
    pub base_url: String,
    /// The timeout, if set.
    pub timeout: Option<Duration>,
}

/// `url` without the slashes at its end.
pub open spec fn unslashed(url: Seq<char>) -> Seq<char>
    decreases url.len(),
{
    if url.len() > 0 && url.last() == '/' {
        unslashed(url.drop_last())
    } else {
        url
    }
}

fn trim_slashes(url: &str) -> (s: String)
    ensures
        s@ == unslashed(url@),
{
    let chars: Vec<char> = text::chars_of(url);
    let mut end: usize = chars.len();
    assert(url@.take(end as int) == url@);
    while end > 0 && chars[end - 1] == '/'
        invariant
            end <= chars@.len(),
            chars@ == url@,
            unslashed(url@) == unslashed(url@.take(end as int)),
        decreases end,
    {
        assert(url@.take(end as int).drop_last() == url@.take(end - 1));
        end -= 1;
    }
    let s = text::from_chars(&chars, 0, end);
    assert(s@ == url@.take(end as int));
    s
}

impl Client {
    /// Starts building a client.
    pub fn builder() -> (b: ClientBuilder)
        ensures
            b.api_key is None,
            b.base_url@ == DEFAULT_BASE_URL@,
            b.timeout is None,
    {
        ClientBuilder { api_key: None, base_url: DEFAULT_BASE_URL.to_owned(), timeout: None }
    }

    /// Builds a client from what the environment holds: the key, which is required,
    /// and the base URL, if it is set.
    pub fn from_env(api_key: Option<&str>, base_url: Option<&str>) -> (r: Result<Client>)
        ensures
            match api_key {
                None => r matches Err(Error::Config(m)) && m@ == "DEEPSEEK_API_KEY is not set"@,
                Some(key) => r matches Ok(c) && c.api_key@ == key@ && c.timeout is None
                    && c.base_url@ == unslashed(
                    match base_url {
                        Some(url) => url@,
                        None => DEFAULT_BASE_URL@,
                    },
                ),
            },
    {
        let key = match api_key {
            None => {
                return Err(Error::Config("DEEPSEEK_API_KEY is not set".to_owned()));
            },
            Some(key) => key,
        };
        let mut builder = Client::builder().api_key(key);
        if let Some(url) = base_url {
            builder = builder.base_url(url);
        }
        builder.build()
    }

    /// The URL of an endpoint.
    pub fn url(&self, path: &str) -> (url: String)
        ensures
            url@ == self.base_url@ + path@,
    {
        let mut url = self.base_url.clone();
        url.append(path);
        url
    }

    /// The value of the `Authorization` header.
    pub fn auth(&self) -> (value: String)
        ensures
            value@ == "Bearer "@ + self.api_key@,
    {
        let mut value = "Bearer ".to_owned();
        value.append(self.api_key.as_str());
        value
    }
}

impl ClientBuilder {
    /// Sets the API key (required).
    pub fn api_key(self, api_key: &str) -> (b: Self)
        ensures
            b.api_key matches Some(key) && key@ == api_key@,
            b.base_url == self.base_url,
            b.timeout == self.timeout,
    {
        ClientBuilder {
            api_key: Some(api_key.to_owned()),
            base_url: self.base_url,
            timeout: self.timeout,
        }
    }

    /// Overrides the base URL.
    pub fn base_url(self, base_url: &str) -> (b: Self)
        ensures
            b.api_key == self.api_key,
            b.base_url@ == base_url@,
            b.timeout == self.timeout,
    {
        ClientBuilder {
            api_key: self.api_key,
            base_url: base_url.to_owned(),
            timeout: self.timeout,
        }
    }

    /// Sets a global timeout covering the whole request/response.
    pub fn timeout(self, timeout: Duration) -> (b: Self)
        ensures
            b.api_key == self.api_key,
            b.base_url == self.base_url,
            b.timeout == Some(timeout),
    {
        ClientBuilder {
            api_key: self.api_key,
            base_url: self.base_url,
            timeout: Some(timeout),
        }
    }

    /// Builds the [`Client`]; without an API key it cannot be built.
    pub fn build(self) -> (r: Result<Client>)
        ensures
            match self.api_key {
                None => r matches Err(Error::Config(m)) && m@ == "api_key is required"@,
                Some(key) => r matches Ok(c) && c.api_key == key && c.base_url@ == unslashed(
                    self.base_url@,
                ) && c.timeout == self.timeout,
            },
    {
        match self.api_key {
            None => Err(Error::Config("api_key is required".to_owned())),
            Some(api_key) => Ok(
                Client {
                    api_key,
                    base_url: trim_slashes(self.base_url.as_str()),
                    timeout: self.timeout,
                },
            ),
        }
    }
}

} // verus!
