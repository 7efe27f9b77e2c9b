//! Startup of the MCP server from configuration: which engines it serves,
//! or why it refuses to start.

use vstd::prelude::*;

use crate::config::RecallProxyConfig;
use crate::factory::{
    create_all_providers, enabled_plans, startup_problems, validate_provider_routes,
    validation_failure, ProviderEngine,
};

verus! {

/// The engines a configuration starts the server with: routes are validated
/// first, then every enabled provider is built; a configuration that enables
/// none is refused.
pub fn startup_engines(config: &RecallProxyConfig) -> (r: Result<Vec<ProviderEngine>, String>)
    ensures
        startup_problems(*config).len() > 0 ==> r is Err && r->Err_0@ == validation_failure(
            startup_problems(*config),
        ),
        startup_problems(*config).len() == 0 ==> match (
            enabled_plans(config.providers@, config.providers@.len() as int),
            r,
        ) {
            (Err(m), Err(e)) => e@ == "failed to create providers: "@ + m,
            (Ok(ps), Err(e)) => ps.len() == 0 && e@ == "no enabled providers configured"@,
            (Ok(ps), Ok(engines)) => ps.len() > 0 && engines@.len() == ps.len() && forall|i: int|
                0 <= i < ps.len() ==> (#[trigger] engines@[i]).plan() == ps[i]
                    && engines@[i].is_fresh(),
            _ => false,
        },
{
    if let Err(e) = validate_provider_routes(config) {
        return Err(e.to_string());
    }
    match create_all_providers(config) {
        Err(e) => {
            let mut message = String::from_str("failed to create providers: ");
            message.append(e.to_string().as_str());
            Err(message)
        },
        Ok(engines) => {
            if engines.len() == 0 {
                Err("no enabled providers configured".to_owned())
            } else {
                Ok(engines)
            }
        },
    }
}

} // verus!
