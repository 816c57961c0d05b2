//! The requests that ask the provider to make a workspace and to list the
//! credentials that it has issued.

use vstd::prelude::*;
use vstd::string::StringExecFns;
use crate::error::ManagerError;
use crate::fetch::{
    address_of, headers_for, request_headers, HttpMethod, RequestModel, UpstreamRequest,
    REQUEST_TIMEOUT_MS,
};
use crate::manager::AnthropicApiKeyManagerState;
use crate::seqs::views;
use crate::text::option_view;
use crate::trusted::{json_quote, json_string_literal, url_normal_form};

verus! {

/// The status of a response that says that something was made.
pub const STATUS_CREATED: u16 = 201;

/// The address that workspaces are made at.
pub open spec fn workspaces_address() -> Seq<char> {
    "https://api.anthropic.com/v1/organizations/workspaces"@
}

/// The address that lists the active credentials, those of the workspace
/// `workspace_id` where one is given.
pub open spec fn api_keys_address(workspace_id: Option<Seq<char>>) -> Seq<char> {
    let all = "https://api.anthropic.com/v1/organizations/api_keys?limit=30&status=active"@;
    match workspace_id {
        Some(w) => all + "&workspace_id="@ + w,
        None => all,
    }
}

/// The body that asks for a workspace whose name has the JSON literal
/// `literal`.
pub open spec fn workspace_body(literal: Seq<char>) -> Seq<char> {
    "{\"name\":"@ + literal + "}"@
}

/// The request that asks at `url` for a workspace whose name has the JSON
/// literal `literal`.
pub open spec fn workspace_request(
    admin_key: Seq<char>,
    url: Seq<char>,
    literal: Seq<char>,
) -> RequestModel {
    RequestModel {
        method: HttpMethod::Post,
        url: url,
        headers: request_headers(admin_key),
        timeout_ms: REQUEST_TIMEOUT_MS as int,
        body: workspace_body(literal),
    }
}

/// The request that asks at `url` for the list of credentials.
pub open spec fn api_keys_request(admin_key: Seq<char>, url: Seq<char>) -> RequestModel {
    RequestModel {
        method: HttpMethod::Get,
        url: url,
        headers: seq![("anthropic-version"@, "2023-06-01"@), ("x-api-key"@, admin_key)],
        timeout_ms: REQUEST_TIMEOUT_MS as int,
        body: Seq::empty(),
    }
}

/// Whether a response with the status `status` says that the workspace was
/// made.
pub fn workspace_was_made(status: u16) -> (made: bool)
    ensures
        made == (status == 200 || status == 201),
{
    status == crate::fetch::STATUS_OK || status == STATUS_CREATED
}

/// Whether a response with the status `status` brings the list of
/// credentials.
pub fn api_keys_were_listed(status: u16) -> (listed: bool)
    ensures
        listed == (status == 200),
{
    status == crate::fetch::STATUS_OK
}

/// The request that asks at `url` for a workspace whose name has the JSON
/// literal `literal`.
pub fn workspace_request_for(admin_key: &str, url: String, literal: &str) -> (request:
    UpstreamRequest)
    ensures
        request@ == workspace_request(admin_key@, url@, literal@),
{
    let mut body = String::from_str("{\"name\":");
    body.append(literal);
    body.append("}");
    UpstreamRequest {
        method: HttpMethod::Post,
        url,
        headers: headers_for(admin_key),
        timeout_ms: REQUEST_TIMEOUT_MS,
        body,
    }
}

/// The request that asks at `url` for the list of credentials.
pub fn api_keys_request_for(admin_key: &str, url: String) -> (request: UpstreamRequest)
    ensures
        request@ == api_keys_request(admin_key@, url@),
{
    let mut headers: Vec<(String, String)> = Vec::new();
    headers.push((String::from_str("anthropic-version"), String::from_str("2023-06-01")));
    headers.push((String::from_str("x-api-key"), String::from_str(admin_key)));
    assert(views(headers@) =~= seq![
        ("anthropic-version"@, "2023-06-01"@),
        ("x-api-key"@, admin_key@),
    ]);
    UpstreamRequest {
        method: HttpMethod::Get,
        url,
        headers,
        timeout_ms: REQUEST_TIMEOUT_MS,
        body: String::new(),
    }
}

impl AnthropicApiKeyManagerState {
    /// The request that asks the provider for a workspace named `name`.
    /// Refused without a credential for the billing endpoint.
    pub fn create_workspace(&self, name: &str) -> (r: Result<UpstreamRequest, ManagerError>)
        ensures
            match self@.admin_api_key {
                None => r matches Err(e) && e == ManagerError::AdminKeyMissing,
                Some(admin) => match url_normal_form(workspaces_address()) {
                    None => r matches Err(e) && e == ManagerError::InvalidUrl,
                    Some(u) => r matches Ok(request) && request@ == workspace_request(
                        admin,
                        u,
                        json_string_literal(name@),
                    ),
                },
            },
    {
        match &self.admin_api_key {
            None => Err(ManagerError::AdminKeyMissing),
            Some(admin) => match address_of(
                "https://api.anthropic.com/v1/organizations/workspaces",
            ) {
                None => Err(ManagerError::InvalidUrl),
                Some(u) => {
                    let literal = json_quote(name);
                    Ok(workspace_request_for(admin.as_str(), u, literal.as_str()))
                },
            },
        }
    }

    /// The request that asks the provider for the active credentials, those
    /// of the workspace `workspace_id` where one is given. Refused without a
    /// credential for the billing endpoint.
    pub fn list_api_keys(&self, workspace_id: &Option<String>) -> (r: Result<
        UpstreamRequest,
        ManagerError,
    >)
        ensures
            match self@.admin_api_key {
                None => r matches Err(e) && e == ManagerError::AdminKeyMissing,
                Some(admin) => match url_normal_form(
                    api_keys_address(option_view(*workspace_id)),
                ) {
                    None => r matches Err(e) && e == ManagerError::InvalidUrl,
                    Some(u) => r matches Ok(request) && request@ == api_keys_request(admin, u),
                },
            },
    {
        match &self.admin_api_key {
            None => Err(ManagerError::AdminKeyMissing),
            Some(admin) => {
                let mut text = String::from_str(
                    "https://api.anthropic.com/v1/organizations/api_keys?limit=30&status=active",
                );
                match workspace_id {
                    Some(w) => {
                        text.append("&workspace_id=");
                        text.append(w.as_str());
                    },
                    None => {},
                }
                match address_of(text.as_str()) {
                    None => Err(ManagerError::InvalidUrl),
                    Some(u) => Ok(api_keys_request_for(admin.as_str(), u)),
                }
            },
        }
    }
}

} // verus!
