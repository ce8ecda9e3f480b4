//! Which network the denoiser runs.
use vstd::prelude::*;
use std::path::PathBuf;

verus! {

/// A path as the system has it, which need not be text.
#[verifier::external_type_specification]
#[verifier::external_body]
pub struct ExPathBuf(std::path::PathBuf);

/// The model that a denoiser is built from.
pub enum Model {
    /// The DeepFilterNet3 model that ships with the denoiser.
    DeepFilterNet3,
    /// A model loaded from the `*_onnx.tar.gz` archive at this path.
    Custom(PathBuf),
}

impl Model {
    /// The name shown to the user.
    pub open spec fn label_text(self) -> Seq<char> {
        match self {
            Model::DeepFilterNet3 => "Standard"@,
            Model::Custom(_) => "Custom"@,
        }
    }

    /// The name shown to the user.
    pub fn label(&self) -> (text: &'static str)
        ensures
            text@ == self.label_text(),
    {
        match self {
            Model::DeepFilterNet3 => "Standard",
            Model::Custom(_) => "Custom",
        }
    }
}

impl Default for Model {
    fn default() -> (model: Self)
        ensures
            model == Model::DeepFilterNet3,
    {
        Model::DeepFilterNet3
    }
}

} // verus!
