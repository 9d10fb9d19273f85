//! Verified core of the asset toolkit's archive and document tools: the name,
//! path, browsing, planning and editing rules behind the DZip, PAK, BNK,
//! Crypt-Data, Compiled-Text, NEWTON, Particle and PAM workspaces, and the
//! ZIP packing of their downloads.
pub mod bnk;
pub mod browser;
pub mod compiled;
pub mod crypt;
pub mod dzip;
pub mod export;
pub mod listing;
pub mod newton;
pub mod pak;
pub mod particle;
pub mod status;
pub mod pam;
pub mod tabs;
pub mod text;
