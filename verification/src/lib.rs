//! The decision logic of a document engine that turns HTML and CSS into paged output.
pub mod audits;
pub mod batch;
pub mod bindings;
pub mod builder;
pub mod bytes;
pub mod caches;
pub mod command;
pub mod compiled;
pub mod compose;
pub mod contents;
pub mod counts;
pub mod documents;
pub mod dom;
pub mod edits;
pub mod engine;
pub mod exchange;
pub mod facts;
pub mod findings;
pub mod flow;
pub mod fragments;
pub mod frame;
pub mod geometry;
pub mod graphics;
pub mod layout;
pub mod layers;
pub mod margins;
pub mod overlay;
pub mod pages;
pub mod pmr;
pub mod rank;
pub mod record;
pub mod reuse;
pub mod settings;
pub mod shrink;
pub mod signals;
pub mod standings;

pub mod tables;
pub mod tally;
pub mod text;
pub mod verdicts;
pub mod watermark;

pub use builder::{
    AssetBundle, FullBleed, FullBleedBuilder, PaginatedContextSpec, TemplateBindingSpec,
};
pub use command::{Command, Document, Page};
pub use compiled::CompiledDocument;
pub use documents::{merge_documents, FullBleedError};
pub use engine::{A11yVerifierCoreReport, DocumentMetrics, PageMetrics};
pub use facts::{A11yVerifierFacts, HtmlTableFacts};
pub use findings::{A11yVerifierEvidence, A11yVerifierFinding};
pub use frame::{AddResult, Canvas, Flowable, Frame, Spacer, TableCell, TableFlowable};
pub use geometry::{Color, Margins, Pt, Rect, Size};
pub use layout::LayoutStrategy;
pub use overlay::{
    PageFooterSpec, PageHeaderHtmlSpec, PageHeaderSpec, WatermarkKind, WatermarkLayer,
    WatermarkSemantics, WatermarkSpec,
};
pub use pmr::{PaginationTraceSummary, PmrCoreAudit, PmrCoreContext, PmrCoreEvidence};
pub use rank::{
    PmrCoreCategory, PmrCoreCoverage, PmrCoreGate, PmrCoreManualDebtItem, PmrCoreRank,
    PmrCoreReport,
};
pub use settings::{
    ColorSpace, CompiledFlowCompression, CompiledReflowOptions, JitMode, OutputIntent, PdfProfile,
    PdfVersion,
};
