//! A SOAP envelope library: envelope construction, body extraction,
//! fault serialization and parsing, and a lightweight WSDL walker that
//! derives typed request and response fields.

pub mod codegen;
pub mod envelope;
pub mod error;
pub mod text;
pub mod wsdl;
pub mod xml;

pub use envelope::SoapVersion;
pub use error::SoapError;

pub use quick_xml;
pub use serde;
pub use thiserror;
