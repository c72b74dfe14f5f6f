//! A small pipeline from markup and style sheets to a layout tree.
//!
//! [`html`] reads markup into the document tree of [`dom`], [`css`] reads
//! style sheets and tests which rules apply to a node, [`style`] gives
//! every node the properties that the rules leave it with, [`layout`]
//! turns the styled tree into boxes, and [`render`] says what is drawn for
//! them. [`renderer`] strings the steps together for one document.
pub mod chars;
pub mod css;
pub mod dict;
pub mod dom;
pub mod html;
pub mod layout;
pub mod render;
pub mod renderer;
pub mod scan;
pub mod style;
