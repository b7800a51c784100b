//! The capability contracts of the library in one place.

pub use crate::actions::Actioner;
pub use crate::agents::Agenter;
pub use crate::states::Stater;
pub use crate::stats::ActionStatter;
pub use crate::value::QValue;
