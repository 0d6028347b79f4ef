//! A retained-mode compositor and paragraph reflow engine for terminal UIs.
//!
//! Widgets are placed into a [`Store`] at absolute coordinates; the store keeps
//! the bounding rectangle of everything placed, so a parent can lay out a child
//! below its siblings without knowing their heights in advance. The store is
//! then drawn once into a [`Buffer`] through a viewport that may be scrolled.
//! [`Text`] reflows styled spans into bounded lines, and a [`Wrapper`] draws a
//! border that hugs the size its child turned out to have.

pub mod account;
pub mod block;
pub mod buffer;
pub mod fit;
pub mod line;
pub mod rect;
pub mod store;
pub mod text;

pub use account::{Account, FeedKind, ViewID};
pub use block::{Block, Borders};
pub use buffer::{Buffer, Cell, Color, Style};
pub use fit::{Fit, Wrapper};
pub use line::{Line, Span};
pub use rect::{NewValue, Rect, RectExt};
pub use store::{bottom_space, scroll_rect, Store, Storeable, Widget};
pub use text::{Alignment, Text};
