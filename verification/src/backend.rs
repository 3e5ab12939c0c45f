//! The common interface for code generators. Rendering IR back to text is
//! the one generator there is; the trait gives verified IR one obvious
//! extension point.
use vstd::prelude::*;
use crate::error::BackendError;
use crate::globals::GlobalRegistry;
use crate::ir::IrModule;
use crate::text_ir::{format_ir_module, functions_text};

verus! {

pub trait IrBackend {
    type Output;

    fn emit(&mut self, module: &IrModule, globals: &GlobalRegistry) -> Result<Self::Output, BackendError>;
}

/// Renders a module to its deterministic text form.
#[derive(Debug, Default)]
pub struct TextIrBackend;

impl IrBackend for TextIrBackend {
    type Output = String;

    fn emit(&mut self, module: &IrModule, globals: &GlobalRegistry) -> (r: Result<String, BackendError>)
        ensures
            r matches Ok(s) && s@ == functions_text(module.functions@, 0, globals@),
    {
        Ok(format_ir_module(module, globals))
    }
}

} // verus!
