//! The font context: the font database and glyph cache that text drawing
//! reads, and loading fonts into it.

use vstd::prelude::*;
use std::sync::Arc;
use cosmic_text::{FontSystem, SwashCache};
use cosmic_text::fontdb::{Database, Source};

verus! {

/// `cosmic_text::FontSystem`, the font database, held opaque.
#[verifier::external_type_specification]
#[verifier::external_body]
pub struct ExFontSystem(FontSystem);

/// `cosmic_text::SwashCache`, the glyph rasterization cache, held opaque.
#[verifier::external_type_specification]
#[verifier::external_body]
pub struct ExSwashCache(SwashCache);

/// The number of font faces that the font database parses out of a font
/// file's bytes (zero when they are not a font it reads).
pub uninterp spec fn font_faces_in(data: Seq<u8>) -> nat;

/// The number of font faces the font database of a font system holds.
pub uninterp spec fn font_face_count(system: FontSystem) -> nat;

/// Relies on `FontSystem::new_with_locale_and_db` with an empty
/// `fontdb::Database`: a font system that holds no fonts and reads none
/// from the machine.
#[verifier::external_body]
fn empty_font_system() -> (r: FontSystem)
    ensures
        font_face_count(r) == 0,
{
    FontSystem::new_with_locale_and_db("en-US".to_string(), Database::new())
}

/// Relies on `SwashCache::new`: an empty glyph cache.
#[verifier::external_body]
fn new_swash_cache() -> (r: SwashCache) {
    SwashCache::new()
}

/// Relies on `FontSystem::db_mut` and `Database::load_font_source` with
/// `Source::Binary`: every face that parses is added, and nothing else; the
/// number added depends on the bytes alone.
#[verifier::external_body]
fn load_font_source(system: &mut FontSystem, data: Vec<u8>) -> (r: usize)
    ensures
        r == font_faces_in(data@),
        font_face_count(*final(system)) == font_face_count(*old(system)) + r,
{
    system.db_mut().load_font_source(Source::Binary(Arc::new(data))).len()
}

/// The number of faces in all of the font files.
pub open spec fn fonts_faces(fonts: Seq<Vec<u8>>) -> nat
    decreases fonts.len(),
{
    if fonts.len() == 0 {
        0
    } else {
        fonts_faces(fonts.drop_last()) + font_faces_in(fonts.last()@)
    }
}

/// Why a font could not be loaded.
#[derive(Clone, Copy, Debug, PartialEq, Eq, Structural)]
pub enum FontError {
    /// No font face could be read from the bytes.
    NoFaces,
}

/// The font database and the glyph rasterization cache.
pub struct FontContext {
    pub font_system: FontSystem,
    pub font_cache: SwashCache,
}

impl FontContext {
    /// The number of font faces loaded.
    pub open spec fn face_count(&self) -> nat {
        font_face_count(self.font_system)
    }

    /// A context with no fonts.
    pub fn new() -> (r: FontContext)
        ensures
            r.face_count() == 0,
    {
        FontContext { font_system: empty_font_system(), font_cache: new_swash_cache() }
    }

    /// Adds the faces of one font file; fails when it holds none, and then
    /// the database gains nothing.
    pub fn load_font(&mut self, data: Vec<u8>) -> (r: Result<(), FontError>)
        ensures
            font_faces_in(data@) == 0 <==> r is Err,
            final(self).face_count() == old(self).face_count() + font_faces_in(data@),
            final(self).font_cache == old(self).font_cache,
    {
        let n = load_font_source(&mut self.font_system, data);
        if n == 0 {
            Err(FontError::NoFaces)
        } else {
            Ok(())
        }
    }

    /// Adds the faces of several font files, in order, and returns how many
    /// files were loaded; stops at the first file that holds no face.
    pub fn load_fonts(&mut self, fonts: Vec<Vec<u8>>) -> (r: Result<usize, FontError>)
        ensures
            r is Ok <==> forall|i: int| 0 <= i < fonts@.len() ==> font_faces_in(#[trigger] fonts@[i]@) > 0,
            r matches Ok(n) ==> n == fonts@.len(),
            r is Ok ==> final(self).face_count() == old(self).face_count() + fonts_faces(fonts@),
            final(self).font_cache == old(self).font_cache,
    {
        let n = fonts.len();
        let mut rest = fonts;
        let ghost all = rest@;
        let mut loaded: usize = 0;
        while loaded < n
            invariant
                n == all.len(),
                all == fonts@,
                loaded <= n,
                rest@.len() == n - loaded,
                forall|i: int| 0 <= i < rest@.len() ==> #[trigger] rest@[i] == all[loaded + i],
                forall|i: int| 0 <= i < loaded ==> font_faces_in(#[trigger] all[i]@) > 0,
                self.face_count() == old(self).face_count() + fonts_faces(all.subrange(0, loaded as int)),
                self.font_cache == old(self).font_cache,
            decreases n - loaded,
        {
            let data = rest.remove(0);
            assert(data == all[loaded as int]);
            match self.load_font(data) {
                Ok(_) => {},
                Err(e) => {
                    assert(font_faces_in(fonts@[loaded as int]@) == 0);
                    return Err(e);
                },
            }
            proof {
                assert(all.subrange(0, loaded + 1).drop_last() =~= all.subrange(0, loaded as int));
            }
            loaded = loaded + 1;
        }
        assert(all.subrange(0, n as int) =~= all);
        Ok(loaded)
    }
}

} // verus!
