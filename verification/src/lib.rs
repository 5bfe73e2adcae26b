//! Trace entries that cross a sandbox boundary: the owned records a sandboxed
//! call site captures, their byte format, and the host-side reading of a
//! decoded entry as a leveled span or event.
pub mod fields;
pub mod host;
pub mod level;
pub mod metadata;
pub mod text;
pub mod value;
pub mod wire;

pub use fields::{WasmFieldName, WasmFields, WasmValuesSet};
pub use host::{
    Descriptor, HostEvent, HostRecord, HostSpan, WasmCallsite, GENERIC_FIELDS, WASM_NAME_KEY,
    WASM_TARGET_KEY, WASM_TRACE_IDENTIFIER,
};
pub use level::WasmLevel;
pub use metadata::{WasmEntryAttributes, WasmMetadata};
pub use value::{CaptureError, WasmValue};
pub use wire::DecodeError;
