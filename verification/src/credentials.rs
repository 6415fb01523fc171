//! Credential requirements for tools.
//!
//! Which secrets each tool needs before an agent may use it.  Storing and
//! retrieving the secrets themselves is the credential collaborator's job,
//! outside this library.

use vstd::prelude::*;

verus! {

use vstd::string::StringExecFns;

/// The credential shape a tool requires.
#[derive(Debug, Clone)]
pub struct CredentialType {
    pub id: String,
    pub name: String,
    pub required_fields: Vec<String>,
}

/// The tools that need exactly one API key.
pub open spec fn single_key_tool(tool: Seq<char>) -> bool {
    ||| tool == "openai"@
    ||| tool == "anthropic"@
    ||| tool == "google"@
    ||| tool == "groq"@
    ||| tool == "xai"@
    ||| tool == "tavily"@
    ||| tool == "serpapi"@
    ||| tool == "alpha_vantage"@
    ||| tool == "newsapi"@
}

/// The display name of a known tool.
pub open spec fn tool_display_name(tool: Seq<char>) -> Seq<char> {
    if tool == "openai"@ {
        "OpenAI"@
    } else if tool == "anthropic"@ {
        "Anthropic"@
    } else if tool == "google"@ {
        "Google AI"@
    } else if tool == "groq"@ {
        "Groq"@
    } else if tool == "xai"@ {
        "xAI"@
    } else if tool == "gmail"@ {
        "Gmail"@
    } else if tool == "tavily"@ {
        "Tavily Search"@
    } else if tool == "serpapi"@ {
        "SerpAPI"@
    } else if tool == "alpha_vantage"@ {
        "Alpha Vantage"@
    } else {
        "NewsAPI"@
    }
}

/// The credential requirements of a tool: a single API key for most
/// providers, the OAuth triple for mail, nothing for an unknown tool.
pub fn get_tool_credential_type(tool_id: &str) -> (r: Option<CredentialType>)
    ensures
        match r {
            Some(c) => {
                &&& c.id@ == tool_id@
                &&& c.name@ == tool_display_name(tool_id@)
                &&& if single_key_tool(tool_id@) {
                    c.required_fields@.len() == 1 && c.required_fields@[0]@ == "api_key"@
                } else {
                    tool_id@ == "gmail"@ && c.required_fields@.len() == 3
                        && c.required_fields@[0]@ == "client_id"@ && c.required_fields@[1]@
                        == "client_secret"@ && c.required_fields@[2]@ == "refresh_token"@
                }
            },
            None => !single_key_tool(tool_id@) && tool_id@ != "gmail"@,
        },
{
    if crate::strutil::str_eq(tool_id, "gmail") {
        proof {
            reveal_strlit("gmail");
            reveal_strlit("openai");
            reveal_strlit("anthropic");
            reveal_strlit("google");
            reveal_strlit("groq");
            reveal_strlit("xai");
            reveal_strlit("tavily");
            reveal_strlit("serpapi");
            reveal_strlit("alpha_vantage");
            reveal_strlit("newsapi");
            assert("gmail"@.len() == 5);
            assert("openai"@.len() == 6);
            assert("anthropic"@.len() == 9);
            assert("google"@.len() == 6);
            assert("groq"@.len() == 4);
            assert("xai"@.len() == 3);
            assert("tavily"@.len() == 6);
            assert("serpapi"@.len() == 7);
            assert("alpha_vantage"@.len() == 13);
            assert("newsapi"@.len() == 7);
            assert(!single_key_tool(tool_id@));
        }
        let mut required_fields: Vec<String> = Vec::new();
        required_fields.push(String::from_str("client_id"));
        required_fields.push(String::from_str("client_secret"));
        required_fields.push(String::from_str("refresh_token"));
        return Some(
            CredentialType {
                id: String::from_str(tool_id),
                name: String::from_str("Gmail"),
                required_fields,
            },
        );
    }
    let name: Option<&str> = if crate::strutil::str_eq(tool_id, "openai") {
        Some("OpenAI")
    } else if crate::strutil::str_eq(tool_id, "anthropic") {
        Some("Anthropic")
    } else if crate::strutil::str_eq(tool_id, "google") {
        Some("Google AI")
    } else if crate::strutil::str_eq(tool_id, "groq") {
        Some("Groq")
    } else if crate::strutil::str_eq(tool_id, "xai") {
        Some("xAI")
    } else if crate::strutil::str_eq(tool_id, "tavily") {
        Some("Tavily Search")
    } else if crate::strutil::str_eq(tool_id, "serpapi") {
        Some("SerpAPI")
    } else if crate::strutil::str_eq(tool_id, "alpha_vantage") {
        Some("Alpha Vantage")
    } else if crate::strutil::str_eq(tool_id, "newsapi") {
        Some("NewsAPI")
    } else {
        None
    };
    match name {
        Some(n) => {
            let mut required_fields: Vec<String> = Vec::new();
            required_fields.push(String::from_str("api_key"));
            Some(
                CredentialType {
                    id: String::from_str(tool_id),
                    name: String::from_str(n),
                    required_fields,
                },
            )
        },
        None => None,
    }
}

} // verus!
