//! freeflight aeronautical data library: record decoders, feature
//! assembly and naming rules, verified with Verus.
pub mod accounts;
pub mod aixm;
pub mod charts;
pub mod cifp;
pub mod cycle;
pub mod decimal;
pub mod domain;
pub mod mbtiles;
pub mod nasr;
pub mod notam;
pub mod openaip;
pub mod planning;
pub mod postflight;
pub mod sorting;
pub mod text;
pub mod vocabulary;
