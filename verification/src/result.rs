use vstd::prelude::*;

verus! {

/// Mathematical image of a [`RenderResult`].
pub ghost struct RenderResultSpec {
    pub bytes: Seq<u8>,
    pub mime: Seq<char>,
    pub warnings: Seq<Seq<char>>,
}

impl RenderResultSpec {
    /// A well-formed result always carries at least one byte of output:
    /// a success with nothing in it is reported as an error instead.
    pub open spec fn wf(self) -> bool {
        self.bytes.len() > 0
    }
}

/// A successfully rendered artifact as handed back by the renderer:
/// the raw image bytes, their content type, and any warnings the
/// renderer emitted alongside.
#[derive(Debug)]
pub struct RenderResult {
    pub bytes: Vec<u8>,
    pub mime: String,
    pub warnings: Vec<String>,
}

impl View for RenderResult {
    type V = RenderResultSpec;

    open spec fn view(&self) -> RenderResultSpec {
        RenderResultSpec {
            bytes: self.bytes@,
            mime: self.mime@,
            warnings: self.warnings.deep_view(),
        }
    }
}

} // verus!
