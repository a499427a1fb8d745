//! Key matrix scanning, layer selection and HID report building for a
//! split wireless keyboard.
pub mod gpio_scan;
pub mod keys;
pub mod keycombo;
pub mod keyreport;
pub mod layer;
pub mod keyboard;
pub mod multi_matrix;
pub mod phantom_matrix;
pub mod wire;

pub use keys::Key;
pub use keycombo::KeyCombo;
pub use keyreport::{KeyReport, ReportError};
pub use layer::{KeyMap, Layer, MatrixLoc};
pub use keyboard::{Keyboard, Matrix};
pub use multi_matrix::MultiMatrix;
pub use phantom_matrix::PhantomMatrix;
