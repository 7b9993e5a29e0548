//! Renderers of a snapshot.

pub mod calm;
pub mod document;
pub mod fields;
pub mod json;
pub mod labels;
pub mod schema;
pub mod text;

use vstd::prelude::*;

use crate::config::{Config, OutputFormat};
use crate::delta::Rates;
use crate::error::Error;
use crate::sample::Snapshot;
use self::document::Document;
use self::json::document_view;
use self::schema::rates_view;

verus! {

/// Renders a snapshot, and its rates where there are any, in the configured
/// format.
pub fn render(snapshot: &Snapshot, rates: Option<&Rates>, config: &Config) -> (r: Result<
    Document,
    Error,
>)
    ensures
        document_view(r) == (match config.format {
            OutputFormat::Text => text::snapshot_text(snapshot@, rates_view(rates), config.verbose),
            OutputFormat::Json => json::snapshot_text(snapshot@, rates_view(rates), config.verbose),
        }),
{
    match config.format {
        OutputFormat::Text => text::write(snapshot, rates, config.verbose),
        OutputFormat::Json => json::write(snapshot, rates, config.verbose),
    }
}

} // verus!
