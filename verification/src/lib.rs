//! Request-log line formatting: a template compiler and a renderer.
//!
//! A template string such as `{method} {uri} -> {status}` is compiled once
//! into an ordered sequence of format units, and each request/response cycle
//! is rendered to a single log line from a per-request snapshot of values.
//! Compilation validates the template up front; rendering is pure and total.

use vstd::prelude::*;

pub mod format;
pub mod render;

use crate::format::{default_units, Format, UnitView};
use crate::render::{spec_render, RenderContext};

verus! {

/// The units a logger renders with: those of its own format, or of the
/// default format where none was supplied.
pub open spec fn chosen_units(format: Option<Format>) -> Seq<UnitView> {
    match format {
        Some(f) => f@,
        None => default_units(),
    }
}

/// Renders request/response log lines with a fixed format.
pub struct Logger {
    format: Option<Format>,
}

impl Logger {
    /// The units this logger renders with.
    pub closed spec fn units(&self) -> Seq<UnitView> {
        chosen_units(self.format)
    }

    /// Create a pair of `Logger`s with the specified `format`. If a `None` is
    /// passed in, both use the default format:
    ///
    /// ```text
    /// {method} {uri} -> {status} ({response-time} ms)
    /// ```
    ///
    /// A pair is returned so that one logger can stand at each end of a
    /// request's handling; both render identically.
    pub fn new(format: Option<Format>) -> (r: (Logger, Logger))
        ensures
            r.0.units() == chosen_units(format),
            r.1.units() == chosen_units(format),
    {
        let copy: Option<Format> = match &format {
            Some(f) => Some(f.clone()),
            None => None,
        };
        (Logger { format: copy }, Logger { format })
    }

    /// The log line for one request/response cycle: the logger's units
    /// rendered with the given context. Always succeeds.
    pub fn log_line(&self, ctx: &RenderContext) -> (r: String)
        ensures
            r@ == spec_render(self.units(), ctx@),
    {
        match &self.format {
            Some(f) => crate::render::render(f, ctx),
            None => {
                let d = Format::default();
                crate::render::render(&d, ctx)
            },
        }
    }
}

/// An empty template compiles to the empty unit sequence, and the empty unit
/// sequence renders to the empty string with any context.
pub proof fn lemma_empty_template(ctx: crate::render::CtxView)
    ensures
        crate::format::spec_compile(Seq::<char>::empty()) == Ok::<
            Seq<UnitView>,
            crate::format::ErrorView,
        >(Seq::<UnitView>::empty()),
        spec_render(Seq::<UnitView>::empty(), ctx) == Seq::<char>::empty(),
{
    assert(crate::format::find_char(Seq::<char>::empty(), '{', 0) is None);
}

} // verus!
