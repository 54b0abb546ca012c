//! A verified codec for NetFlow v9 flow-export packets.
//!
//! NetFlow v9 packets carry self-describing templates: a template declares,
//! per numeric field-type identifier, how many bytes a field occupies, and
//! data records are then decoded against a previously seen template.  This
//! crate decodes and encodes the wire format byte for byte: the 4-byte
//! type/length units, the template and option-template flowsets, the
//! template-driven record codec, and the packet header, with machine-checked
//! contracts stating what each decoder accepts and what each encoder emits.

pub mod error;
pub mod field;
pub mod flowset;
pub mod netflow;
pub mod util;
