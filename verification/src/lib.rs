//! The data of a mech game, read and reasoned about.
//!
//! The game ships its data as archives of deflated XML documents. This
//! library reads the index of such an archive (`pak_archive`, with the layout
//! that it reads in `pak_layout`), unpacks documents (`xml_doc`), and reads
//! from them the weapons (`weapons`), the internals of components
//! (`internals`), the hardpoints of a chassis (`hardpoints`), the list of
//! mechs (`mechs`) and the variants of each mech (`variants`); `catalog` puts
//! these together. For a loadout of weapons, `fitting` tells which variants
//! can carry it, and `quirks` adds up the quirks of a variant that bear on
//! it.
//!
//! Quantities that the game writes as decimal numbers (tons, seconds, quirk
//! values) are held exactly, as whole numbers of millionths
//! (`mwo_types::Decimal`), and compared without rounding.

pub mod catalog;
pub mod error;
pub mod extract;
pub mod fitting;
pub mod hardpoints;
pub mod internals;
pub mod mechs;
pub mod mwo_types;
pub mod pak_archive;
pub mod pak_layout;
pub mod quirks;
pub mod search;
pub mod text;
pub mod variants;
pub mod weapons;
pub mod xml_doc;
