//! Loading a level from the bytes of its file.
use vstd::prelude::*;
use vstd::utf8::{decode_utf8, valid_utf8};
use crate::level::{LevelError, level_spec, lines_of};
use crate::resources::World;

verus! {

/// Reads level files, whose extension is `level`.
pub struct WorldLoader;

/// Relies on std::str::from_utf8: it accepts exactly the valid UTF-8 byte
/// strings, and decodes them.
#[verifier::external_body]
fn utf8_text(bytes: &[u8]) -> (r: Option<&str>)
    ensures
        r is Some <==> valid_utf8(bytes@),
        r matches Some(s) ==> s@ == decode_utf8(bytes@),
{
    std::str::from_utf8(bytes).ok()
}

/// Why a level file could not be loaded.
#[derive(Clone, Copy, Debug, PartialEq, Eq, Structural)]
pub enum LoadError {
    /// The file is not UTF-8 text.
    NotText,
    /// The text is not a level.
    Level(LevelError),
}

impl WorldLoader {
    /// The level in a file's bytes: they must be UTF-8 text that parses as
    /// a level.
    pub fn load(&self, bytes: &[u8]) -> (r: Result<World, LoadError>)
        ensures
            !valid_utf8(bytes@) ==> r == Err::<World, LoadError>(LoadError::NotText),
            valid_utf8(bytes@) ==> match level_spec(lines_of(decode_utf8(bytes@))) {
                Ok(m) => r matches Ok(world) && world@ == m && world.wf(),
                Err(e) => r == Err::<World, LoadError>(LoadError::Level(e)),
            },
    {
        match utf8_text(bytes) {
            Some(text) => match World::from_string(String::from_str(text)) {
                Ok(world) => Ok(world),
                Err(e) => Err(LoadError::Level(e)),
            },
            None => Err(LoadError::NotText),
        }
    }

    /// The file extension of level files.
    pub fn extensions(&self) -> (r: &'static str)
        ensures
            r@ == "level"@,
    {
        "level"
    }
}

} // verus!
