//! Forwarding of one HTTP request: what is sent out for a caller's request,
//! and the envelope that is handed back for what the server answered.
//!
//! The network call itself is made by the caller, between [`plan_request`] and
//! [`assemble_response`].

use vstd::prelude::*;
use crate::failure::{Failure, FailureView};
use crate::method::{method_named, parse_method, HttpMethod};

verus! {

/// A header as text: a name and its value.
#[derive(Debug, PartialEq, Eq)]
pub struct HeaderPair {
    pub name: String,
    pub value: String,
}

impl View for HeaderPair {
    type V = (Seq<char>, Seq<char>);

    open spec fn view(&self) -> (Seq<char>, Seq<char>) {
        (self.name@, self.value@)
    }
}

impl Clone for HeaderPair {
    fn clone(&self) -> (copy: Self)
        ensures
            copy@ == self@,
    {
        HeaderPair { name: self.name.clone(), value: self.value.clone() }
    }
}

/// The views of a list of headers, in order.
pub open spec fn pair_views(pairs: Seq<HeaderPair>) -> Seq<(Seq<char>, Seq<char>)> {
    Seq::new(pairs.len(), |i: int| pairs[i]@)
}

/// The one network call that a forwarded request leads to.
#[derive(Debug, PartialEq, Eq)]
pub struct OutboundRequest {
    /// The method to dispatch with.
    pub method: HttpMethod,
    /// The target, as the caller gave it.
    pub url: String,
    /// The headers to attach, in the caller's order.
    pub headers: Vec<HeaderPair>,
    /// The payload to attach, if any.
    pub body: Option<String>,
}

/// Mathematical counterpart of [`OutboundRequest`].
pub struct OutboundRequestView {
    pub method: HttpMethod,
    pub url: Seq<char>,
    pub headers: Seq<(Seq<char>, Seq<char>)>,
    pub body: Option<Seq<char>>,
}

impl View for OutboundRequest {
    type V = OutboundRequestView;

    open spec fn view(&self) -> OutboundRequestView {
        OutboundRequestView {
            method: self.method,
            url: self.url@,
            headers: pair_views(self.headers@),
            body: match self.body {
                Some(text) => Some(text@),
                None => None,
            },
        }
    }
}

/// The outbound call for a request with a supported method: the caller's URL
/// and headers unchanged, and the caller's payload unless the method is one
/// that carries none.
pub open spec fn planned(
    method: HttpMethod,
    url: Seq<char>,
    headers: Option<Seq<(Seq<char>, Seq<char>)>>,
    body: Option<Seq<char>>,
) -> OutboundRequestView {
    OutboundRequestView {
        method,
        url,
        headers: match headers {
            Some(pairs) => pairs,
            None => Seq::empty(),
        },
        body: if method.carries_body() {
            body
        } else {
            None
        },
    }
}

/// Decides what is sent for a caller's request. An unsupported method is
/// refused here, before anything reaches the network.
pub fn plan_request(
    url: String,
    method: &str,
    headers: Option<Vec<HeaderPair>>,
    body: Option<String>,
) -> (outcome: Result<OutboundRequest, Failure>)
    ensures
        match method_named(method@) {
            Some(dispatch) => outcome is Ok && outcome->Ok_0@ == planned(
                dispatch,
                url@,
                match headers {
                    Some(pairs) => Some(pair_views(pairs@)),
                    None => None,
                },
                match body {
                    Some(text) => Some(text@),
                    None => None,
                },
            ),
            None => outcome is Err && outcome->Err_0@ == FailureView::UnsupportedMethod(method@),
        },
{
    let dispatch = match parse_method(method) {
        Ok(dispatch) => dispatch,
        Err(refusal) => {
            return Err(refusal);
        },
    };
    let attached: Vec<HeaderPair> = match headers {
        Some(pairs) => pairs,
        None => Vec::new(),
    };
    let payload: Option<String> = if dispatch.allows_body() {
        body
    } else {
        None
    };
    let request = OutboundRequest { method: dispatch, url, headers: attached, body: payload };
    proof {
        if headers is None {
            assert(pair_views(attached@) =~= Seq::<(Seq<char>, Seq<char>)>::empty());
        }
    }
    Ok(request)
}

/// A payload never goes out with `GET` or `HEAD`, and always goes out, as it
/// was given, with every other method.
pub proof fn lemma_body_policy(
    method: HttpMethod,
    url: Seq<char>,
    headers: Option<Seq<(Seq<char>, Seq<char>)>>,
    body: Option<Seq<char>>,
)
    ensures
        method == HttpMethod::Get || method == HttpMethod::Head ==> planned(
            method,
            url,
            headers,
            body,
        ).body is None,
        method != HttpMethod::Get && method != HttpMethod::Head ==> planned(
            method,
            url,
            headers,
            body,
        ).body == body,
{
}

} // verus!
