//! The settings of the engine, and which of them fit together.
use vstd::prelude::*;

use crate::documents::FullBleedError;
use crate::text::{blank, concat, decimal, decimal_text, is_blank};

verus! {

broadcast use vstd::string::group_string_axioms;

/// How a batch is planned and painted.
#[derive(Clone, Copy, Debug, PartialEq, Eq, Structural)]
pub enum JitMode {
    Off,
    PlanOnly,
    PlanAndReplay,
}

/// The name of a mode.
pub fn jit_mode_str(mode: JitMode) -> (r: &'static str)
    ensures
        mode == JitMode::Off ==> r@ == "off"@,
        mode == JitMode::PlanOnly ==> r@ == "plan"@,
        mode == JitMode::PlanAndReplay ==> r@ == "replay"@,
{
    match mode {
        JitMode::Off => "off",
        JitMode::PlanOnly => "plan",
        JitMode::PlanAndReplay => "replay",
    }
}

/// The version of the file format.
#[derive(Clone, Copy, Debug, PartialEq, Eq, Structural)]
pub enum PdfVersion {
    Pdf17,
    Pdf20,
}

/// The name of a version.
pub fn pdf_version_str(version: PdfVersion) -> (r: &'static str)
    ensures
        version == PdfVersion::Pdf17 ==> r@ == "1.7"@,
        version == PdfVersion::Pdf20 ==> r@ == "2.0"@,
{
    match version {
        PdfVersion::Pdf17 => "1.7",
        PdfVersion::Pdf20 => "2.0",
    }
}

/// The colour space of painted shapes.
#[derive(Clone, Copy, Debug, PartialEq, Eq, Structural)]
pub enum ColorSpace {
    Rgb,
    Cmyk,
}

/// How strongly the pages of a compiled batch are compressed.
#[derive(Clone, Copy, Debug, PartialEq, Eq, Structural)]
pub enum CompiledFlowCompression {
    Throughput,
    Compact,
}

/// A conformance profile: its name, and whether it needs an output intent.
#[derive(Debug)]
pub struct PdfProfile {
    pub name: String,
    pub requires_output_intent: bool,
}

/// The printing condition that a document is meant for.
#[derive(Debug)]
pub struct OutputIntent {
    pub icc_profile: Vec<u8>,
    pub n_components: u8,
    pub identifier: String,
}

/// The settings of the written file.
#[derive(Debug)]
pub struct PdfOptions {
    pub reuse_xobjects: bool,
    pub unicode_support: bool,
    pub shape_text: bool,
    pub pdf_profile: PdfProfile,
    pub output_intent: Option<OutputIntent>,
    pub pdf_version: PdfVersion,
    pub color_space: ColorSpace,
    pub document_lang: Option<String>,
    pub document_title: Option<String>,
    pub compression: CompiledFlowCompression,
}

/// The settings before anything is chosen.
pub open spec fn is_default(o: PdfOptions) -> bool {
    &&& o.reuse_xobjects
    &&& o.unicode_support
    &&& o.shape_text
    &&& o.pdf_profile.name@ == "none"@
    &&& !o.pdf_profile.requires_output_intent
    &&& o.output_intent is None
    &&& o.pdf_version == PdfVersion::Pdf17
    &&& o.color_space == ColorSpace::Rgb
    &&& o.document_lang is None
    &&& o.document_title is None
    &&& o.compression == CompiledFlowCompression::Throughput
}

impl Default for PdfOptions {
    fn default() -> (o: Self)
        ensures
            is_default(o),
    {
        PdfOptions {
            reuse_xobjects: true,
            unicode_support: true,
            shape_text: true,
            pdf_profile: PdfProfile { name: "none".to_owned(), requires_output_intent: false },
            output_intent: None,
            pdf_version: PdfVersion::Pdf17,
            color_space: ColorSpace::Rgb,
            document_lang: None,
            document_title: None,
            compression: CompiledFlowCompression::Throughput,
        }
    }
}

/// What is wrong with an output intent: the first of its faults.
pub open spec fn intent_fault(intent: OutputIntent) -> Option<Seq<char>> {
    if intent.icc_profile@.len() == 0 {
        Some("output_intent ICC profile cannot be empty"@)
    } else if intent.n_components != 1 && intent.n_components != 3 && intent.n_components != 4 {
        Some(
            "output_intent n_components must be one of 1, 3, or 4 (got "@ + decimal(
                intent.n_components as nat,
            ) + ")"@,
        )
    } else if is_blank(intent.identifier@) {
        Some("output_intent identifier cannot be empty"@)
    } else {
        None
    }
}

/// What is wrong with the settings of the written file. Nothing is, unless the profile needs an
/// output intent.
pub open spec fn option_fault(o: PdfOptions) -> Option<Seq<char>> {
    if !o.pdf_profile.requires_output_intent {
        None
    } else {
        match o.output_intent {
            Some(intent) => intent_fault(intent),
            None => Some("pdf_profile="@ + o.pdf_profile.name@ + " requires output_intent"@),
        }
    }
}

/// An outcome is a refusal with this message, or no refusal where there is none.
pub open spec fn refuses<T>(r: Result<T, FullBleedError>, fault: Option<Seq<char>>) -> bool {
    match fault {
        Some(message) => r matches Err(FullBleedError::InvalidConfiguration(text)) && text@
            == message,
        None => r is Ok,
    }
}

fn refusal<T>(message: String) -> (r: Result<T, FullBleedError>)
    ensures
        refuses(r, Some(message@)),
{
    Err(FullBleedError::InvalidConfiguration(message))
}

/// Refuses settings that do not fit together.
pub fn validate_pdf_options(options: &PdfOptions) -> (r: Result<(), FullBleedError>)
    ensures
        refuses(r, option_fault(*options)),
{
    if !options.pdf_profile.requires_output_intent {
        return Ok(());
    }
    match &options.output_intent {
        None => refusal(
            concat(&concat("pdf_profile=", &options.pdf_profile.name), " requires output_intent"),
        ),
        Some(intent) => {
            let n: u8 = intent.n_components;
            if intent.icc_profile.len() == 0 {
                refusal("output_intent ICC profile cannot be empty".to_owned())
            } else if n != 1 && n != 3 && n != 4 {
                let mut text = "output_intent n_components must be one of 1, 3, or 4 (got ".to_owned();
                text.append(&decimal_text(n as u64));
                text.append(")");
                refusal(text)
            } else if blank(&intent.identifier) {
                refusal("output_intent identifier cannot be empty".to_owned())
            } else {
                Ok(())
            }
        },
    }
}

/// A profile that needs no output intent takes any.
pub proof fn free_profiles_pass(o: PdfOptions)
    requires
        !o.pdf_profile.requires_output_intent,
    ensures
        option_fault(o) is None,
{
}

/// A double-precision number, carried as its bit pattern.
#[derive(Clone, Copy, Debug, PartialEq, Eq, Structural)]
pub struct Double {
    pub bits: u64,
}

/// A number is finite and above nought.
pub open spec fn is_positive(d: Double) -> bool {
    0 < d.bits < 0x7ff0_0000_0000_0000
}

/// Options for one run of a compiled document.
#[derive(Clone, Copy, Debug, PartialEq, Eq, Structural)]
pub struct CompiledReflowOptions {
    pub compression: CompiledFlowCompression,
}

impl Default for CompiledReflowOptions {
    fn default() -> (o: Self)
        ensures
            o.compression == CompiledFlowCompression::Throughput,
    {
        CompiledReflowOptions { compression: CompiledFlowCompression::Throughput }
    }
}

/// Settings are refused if and only if the profile needs an output intent and there is none, or one
/// without a profile, without a name, or with another number of components than one, three or four.
pub proof fn settings_are_refused(o: PdfOptions, r: Result<(), FullBleedError>)
    requires
        refuses(r, option_fault(o)),
    ensures
        r is Err <==> o.pdf_profile.requires_output_intent && {
            ||| o.output_intent is None
            ||| o.output_intent matches Some(i) && (i.icc_profile@.len() == 0 || is_blank(
                i.identifier@,
            ) || !(i.n_components == 1 || i.n_components == 3 || i.n_components == 4))
        },
{
}

} // verus!
