//! Pure helpers behind the game's screens: card artwork markup, HUD and
//! summary text, keyboard pile cycling and theme-directory resolution.

pub mod text;
pub mod hud;
pub mod pause;
pub mod profile;
pub mod selection;
pub mod win_summary;
pub mod replay;
pub mod card_face_svg;
pub mod user_dir;
