//! The resource catalog: fonts, sprite sheets, the sprite-name index and the
//! fallbacks that make every lookup succeed.

use vstd::prelude::*;
use crate::error::LoadError;
use crate::names::{file_prefix, lemma_sprite_name_injective, make_sprite_name, parse_sheet_name, sheet_key, sprite_name};
use crate::sheet::{all_inside, cells_across, is_cell, load_sprite_sheet, Rect, SpriteSheet, TextureInfo};

verus! {

/// What the catalog reads of a font that the graphics backend decoded.
#[derive(Debug, Clone, Copy, PartialEq, Eq, Structural)]
pub struct FontInfo {
    pub base_size: i32,
    pub glyph_count: i32,
    /// The glyph images and their rectangles are loaded.
    pub has_glyph_data: bool,
}

impl FontInfo {
    /// The font can draw text: a positive size, some glyphs, and their data.
    pub open spec fn valid(&self) -> bool {
        self.base_size > 0 && self.glyph_count > 0 && self.has_glyph_data
    }

    /// Tells whether the font can draw text.
    pub fn is_font_valid(&self) -> (r: bool)
        ensures
            r == self.valid(),
    {
        self.base_size > 0 && self.glyph_count > 0 && self.has_glyph_data
    }
}

/// Position of the last entry of `s` under key `k`, or -1 when there is none.
pub open spec fn key_pos<V>(s: Seq<(String, V)>, k: Seq<char>) -> int
    decreases s.len(),
{
    if s.len() == 0 {
        -1
    } else if s.last().0@ == k {
        s.len() - 1
    } else {
        key_pos(s.drop_last(), k)
    }
}

/// The value of the last entry of `s` under key `k`.
pub open spec fn value_of<V>(s: Seq<(String, V)>, k: Seq<char>) -> Option<V> {
    let p = key_pos(s, k);
    if p < 0 {
        None
    } else {
        Some(s[p].1)
    }
}

/// Where `key_pos` points, and what its absence means.
pub proof fn lemma_key_pos<V>(s: Seq<(String, V)>, k: Seq<char>)
    ensures
        -1 <= key_pos(s, k) < s.len(),
        key_pos(s, k) >= 0 ==> s[key_pos(s, k)].0@ == k,
        key_pos(s, k) == -1 ==> forall|j: int| 0 <= j < s.len() ==> (#[trigger] s[j]).0@ != k,
    decreases s.len(),
{
    if s.len() > 0 {
        lemma_key_pos(s.drop_last(), k);
        if s.last().0@ != k {
            assert forall|j: int| 0 <= j < s.len() && key_pos(s, k) == -1 implies (#[trigger] s[j]).0@ != k by {
                if j < s.len() - 1 {
                    assert(s[j] == s.drop_last()[j]);
                }
            }
        }
    }
}

proof fn lemma_key_pos_push<V>(s: Seq<(String, V)>, e: (String, V), k: Seq<char>)
    ensures
        key_pos(s.push(e), k) == if e.0@ == k { s.len() as int } else { key_pos(s, k) },
{
    assert(s.push(e).drop_last() =~= s);
}

/// Finds the last entry of `s` under key `k`.
pub fn find_key<V>(s: &Vec<(String, V)>, k: &String) -> (r: Option<usize>)
    ensures
        match r {
            Some(p) => p as int == key_pos(s@, k@) && p < s@.len() && s@[p as int].0@ == k@,
            None => key_pos(s@, k@) == -1,
        },
{
    proof {
        lemma_key_pos(s@, k@);
    }
    let mut i: usize = s.len();
    assert(s@.take(i as int) =~= s@);
    while i > 0
        invariant
            i <= s@.len(),
            key_pos(s@, k@) == key_pos(s@.take(i as int), k@),
        decreases i,
    {
        let ghost part = s@.take(i as int);
        if s[i - 1].0 == *k {
            assert(part.last() == s@[i - 1]);
            return Some(i - 1);
        }
        assert(part.drop_last() =~= s@.take(i - 1));
        i = i - 1;
    }
    None
}

/// The sheet key of an image file name.
pub open spec fn image_key(name: Seq<char>) -> Seq<char> {
    sheet_key(file_prefix(name))
}

/// The columns of the sheet of `image`, whose name parsed.
pub open spec fn image_cols(image: (String, TextureInfo)) -> int {
    cells_across(image.1.width as int, parse_sheet_name(image.0@)->Ok_0.1)
}

/// The number of cells of the sheet of `image`, whose name parsed.
pub open spec fn image_cells(image: (String, TextureInfo)) -> int {
    image_cols(image) * cells_across(image.1.height as int, parse_sheet_name(image.0@)->Ok_0.2)
}

/// The error with which building from `images`, in this order, stops; `None`
/// when every name parses and no two images share a sheet key.
pub open spec fn build_error(images: Seq<(String, TextureInfo)>) -> Option<LoadError>
    decreases images.len(),
{
    if images.len() == 0 {
        None
    } else {
        let prev = images.drop_last();
        if build_error(prev) is Some {
            build_error(prev)
        } else {
            match parse_sheet_name(images.last().0@) {
                Err(e) => Some(e),
                Ok(p) => if exists|j: int| 0 <= j < prev.len() && image_key((#[trigger] prev[j]).0@) == p.0 {
                    Some(LoadError::DuplicateSheet)
                } else {
                    None
                },
            }
        }
    }
}

proof fn lemma_build_error_prefix(s: Seq<(String, TextureInfo)>, i: int)
    requires
        0 <= i <= s.len(),
        build_error(s.take(i)) is Some,
    ensures
        build_error(s) == build_error(s.take(i)),
    decreases s.len(),
{
    if i == s.len() {
        assert(s.take(i) =~= s);
    } else {
        assert(s.drop_last().take(i) =~= s.take(i));
        lemma_build_error_prefix(s.drop_last(), i);
    }
}

/// The sheet entry built from `image`.
pub open spec fn sheet_from(entry: (String, SpriteSheet), image: (String, TextureInfo)) -> bool {
    match parse_sheet_name(image.0@) {
        Ok((key, w, h)) => {
            &&& entry.0@ == key
            &&& entry.1.texture == image.1
            &&& entry.1.sliced(w, h)
            &&& all_inside(entry.1.sprites@, image.1.width as int, image.1.height as int)
        },
        Err(_) => false,
    }
}

/// Loaded fonts and sprite sheets, with the fallbacks that lookups return.
pub struct Resources {
    /// Fonts by file name; a lookup takes the last font under a name.
    pub fonts: Vec<(String, FontInfo)>,
    pub fallback_font: FontInfo,
    /// Sprite name to (sheet key, cell index).
    sprites: Vec<(String, (String, usize))>,
    sprite_sheets: Vec<(String, SpriteSheet)>,
    fallback_sprite: (TextureInfo, Rect),
}

impl Resources {
    /// The (sheet key, cell index) registered under a sprite name.
    pub open spec fn sprite_entry(&self, name: Seq<char>) -> Option<(Seq<char>, int)> {
        match value_of(self.sprite_list(), name) {
            Some(e) => Some((e.0@, e.1 as int)),
            None => None,
        }
    }

    /// The texture and cell that a sprite name stands for, if it resolves to
    /// a cell of a loaded sheet.
    pub open spec fn resolve(&self, name: Seq<char>) -> Option<(TextureInfo, Rect)> {
        match self.sprite_entry(name) {
            Some((key, index)) => match value_of(self.sheet_list(), key) {
                Some(sheet) => if 0 <= index < sheet.sprites@.len() {
                    Some((sheet.texture, sheet.sprites@[index]))
                } else {
                    None
                },
                None => None,
            },
            None => None,
        }
    }

    /// The fonts, in the order in which they were loaded.
    pub closed spec fn font_list(&self) -> Seq<(String, FontInfo)> {
        self.fonts@
    }

    /// The font drawn with when no loaded font is asked for.
    pub closed spec fn default_font(&self) -> FontInfo {
        self.fallback_font
    }

    /// The sprite index: sprite name, then (sheet key, cell index).
    pub closed spec fn sprite_list(&self) -> Seq<(String, (String, usize))> {
        self.sprites@
    }

    /// The sheets, with their keys, in the order in which they were loaded.
    pub closed spec fn sheet_list(&self) -> Seq<(String, SpriteSheet)> {
        self.sprite_sheets@
    }

    /// The fallback texture and the rectangle that covers it.
    pub closed spec fn fallback(&self) -> (TextureInfo, Rect) {
        self.fallback_sprite
    }

    /// The catalog's invariant: sheet keys are unique; each sprite name is the
    /// name of the cell it points to, and that cell exists; every cell is
    /// nonempty and lies inside its texture; the fallback font is valid; and
    /// the fallback sprite covers its own nonempty texture, which is no
    /// sheet's texture.
    pub open spec fn wf(&self) -> bool {
        &&& forall|a: int, b: int|
            0 <= a < b < self.sheet_list().len() ==> (#[trigger] self.sheet_list()[a]).0@
                != (#[trigger] self.sheet_list()[b]).0@
        &&& forall|p: int|
            0 <= p < self.sprite_list().len() ==> {
                let e = #[trigger] self.sprite_list()[p];
                &&& e.0@ == sprite_name(e.1.0@, e.1.1 as nat)
                &&& value_of(self.sheet_list(), e.1.0@) is Some
                &&& (e.1.1 as int) < value_of(self.sheet_list(), e.1.0@)->Some_0.sprites@.len()
            }
        &&& forall|q: int|
            0 <= q < self.sheet_list().len() ==> {
                let t = (#[trigger] self.sheet_list()[q]).1.texture;
                &&& t.id != self.fallback().0.id
                &&& all_inside(self.sheet_list()[q].1.sprites@, t.width as int, t.height as int)
            }
        &&& self.default_font().valid()
        &&& self.fallback().0.width > 0
        &&& self.fallback().0.height > 0
        &&& self.fallback().1 == (Rect {
            x: 0,
            y: 0,
            width: self.fallback().0.width,
            height: self.fallback().0.height,
        })
    }

    /// The catalog holds exactly what was loaded: the fonts as given, the
    /// fallbacks, and for each image and each of its cells the sprite name
    /// `{key}_{index}`, which resolves to that image's texture and cell; no
    /// other name resolves.
    pub open spec fn built_from(
        &self,
        fonts: Seq<(String, FontInfo)>,
        images: Seq<(String, TextureInfo)>,
        fallback_font: FontInfo,
        fallback_texture: TextureInfo,
    ) -> bool {
        &&& self.wf()
        &&& self.font_list() == fonts
        &&& self.default_font() == fallback_font
        &&& self.fallback().0 == fallback_texture
        &&& forall|j: int, k: int|
            0 <= j < images.len() && 0 <= k < image_cells(images[j]) ==> {
                let size = parse_sheet_name(images[j].0@)->Ok_0;
                let found = #[trigger] self.resolve(sprite_name(image_key(images[j].0@), k as nat));
                &&& found is Some
                &&& found->Some_0.0 == images[j].1
                &&& is_cell(found->Some_0.1, k, image_cols(images[j]), size.1, size.2)
            }
        &&& forall|name: Seq<char>|
            (#[trigger] self.resolve(name)) is Some ==> exists|j: int, k: int|
                0 <= j < images.len() && 0 <= k < image_cells(images[j]) && name == #[trigger] sprite_name(
                    image_key(images[j].0@),
                    k as nat,
                )
    }

    /// The texture and cell to draw for a sprite name: the named cell when the
    /// name resolves, the fallback sprite otherwise. Never fails.
    pub fn get_sprite(&self, name: &str) -> (r: (&TextureInfo, &Rect))
        ensures
            match self.resolve(name@) {
                Some((t, c)) => *r.0 == t && *r.1 == c,
                None => *r.0 == self.fallback().0 && *r.1 == self.fallback().1,
            },
            self.sprite_entry(name@) is None ==> *r.0 == self.fallback().0 && *r.1 == self.fallback().1,
            self.wf() ==> r.1.inside(r.0.width as int, r.0.height as int),
            self.wf() && self.sprite_entry(name@) is Some ==> r.0.id != self.fallback().0.id,
    {
        proof {
            if self.wf() {
                lemma_registered_resolves(self, name@);
                if self.resolve(name@) is Some {
                    lemma_fallback_texture_distinct(self, name@);
                    lemma_resolved_inside(self, name@);
                }
            }
        }
        let key = String::from_str(name);
        if let Some(p) = find_key(&self.sprites, &key) {
            let sheet_name = &self.sprites[p].1.0;
            let index = self.sprites[p].1.1;
            if let Some(q) = find_key(&self.sprite_sheets, sheet_name) {
                let sheet = &self.sprite_sheets[q].1;
                if index < sheet.sprites.len() {
                    return (&sheet.texture, &sheet.sprites[index]);
                }
            }
        }
        (&self.fallback_sprite.0, &self.fallback_sprite.1)
    }

    /// The sprite returned for names that resolve to no cell.
    pub fn fallback_sprite(&self) -> (r: (&TextureInfo, &Rect))
        ensures
            *r.0 == self.fallback().0,
            *r.1 == self.fallback().1,
    {
        (&self.fallback_sprite.0, &self.fallback_sprite.1)
    }

    /// The fonts, in the order in which they were loaded.
    pub fn get_fonts(&self) -> (r: &Vec<(String, FontInfo)>)
        ensures
            r@ == self.font_list(),
    {
        &self.fonts
    }

    /// The font drawn with when no loaded font is asked for.
    pub fn get_fallback_font(&self) -> (r: &FontInfo)
        ensures
            *r == self.default_font(),
    {
        &self.fallback_font
    }

    /// The last font loaded under `name`; callers fall back to
    /// `fallback_font` themselves.
    pub fn font(&self, name: &str) -> (r: Option<&FontInfo>)
        ensures
            match value_of(self.font_list(), name@) {
                Some(f) => r == Some(&f),
                None => r is None,
            },
    {
        let key = String::from_str(name);
        match find_key(&self.fonts, &key) {
            Some(p) => Some(&self.fonts[p].1),
            None => None,
        }
    }
}

proof fn lemma_push_keeps<V>(s: Seq<(String, V)>, e: (String, V))
    ensures
        key_pos(s.push(e), e.0@) >= 0,
        forall|k: Seq<char>| key_pos(s, k) >= 0 ==> #[trigger] key_pos(s.push(e), k) >= 0,
{
    lemma_key_pos_push(s, e, e.0@);
    assert forall|k: Seq<char>| key_pos(s, k) >= 0 implies #[trigger] key_pos(s.push(e), k) >= 0 by {
        lemma_key_pos_push(s, e, k);
    }
}

proof fn lemma_resolve_cells(res: &Resources, images: Seq<(String, TextureInfo)>)
    requires
        res.sprite_sheets@.len() == images.len(),
        forall|j: int| 0 <= j < images.len() ==> sheet_from(#[trigger] res.sprite_sheets@[j], images[j]),
        forall|a: int, b: int|
            0 <= a < b < res.sprite_sheets@.len() ==> (#[trigger] res.sprite_sheets@[a]).0@
                != (#[trigger] res.sprite_sheets@[b]).0@,
        forall|p: int|
            0 <= p < res.sprites@.len() ==> {
                let e = #[trigger] res.sprites@[p];
                e.0@ == sprite_name(e.1.0@, e.1.1 as nat)
            },
        forall|q: int, k: int|
            0 <= q < res.sprite_sheets@.len() && 0 <= k < res.sprite_sheets@[q].1.sprites@.len()
                ==> #[trigger] key_pos(res.sprites@, sprite_name(res.sprite_sheets@[q].0@, k as nat)) >= 0,
    ensures
        forall|j: int, k: int|
            0 <= j < images.len() && 0 <= k < image_cells(images[j]) ==> {
                let size = parse_sheet_name(images[j].0@)->Ok_0;
                let found = #[trigger] res.resolve(sprite_name(image_key(images[j].0@), k as nat));
                &&& found is Some
                &&& found->Some_0.0 == images[j].1
                &&& is_cell(found->Some_0.1, k, image_cols(images[j]), size.1, size.2)
            },
        forall|name: Seq<char>|
            (#[trigger] res.resolve(name)) is Some ==> exists|j: int, k: int|
                0 <= j < images.len() && 0 <= k < image_cells(images[j]) && name == #[trigger] sprite_name(
                    image_key(images[j].0@),
                    k as nat,
                ),
{
    let sheets = res.sprite_sheets@;
    let sprites = res.sprites@;
    assert forall|j: int, k: int| 0 <= j < images.len() && 0 <= k < image_cells(images[j]) implies {
        let size = parse_sheet_name(images[j].0@)->Ok_0;
        let found = #[trigger] res.resolve(sprite_name(image_key(images[j].0@), k as nat));
        &&& found is Some
        &&& found->Some_0.0 == images[j].1
        &&& is_cell(found->Some_0.1, k, image_cols(images[j]), size.1, size.2)
    } by {
        assert(sheet_from(sheets[j], images[j]));
        let key = sheets[j].0@;
        let name = sprite_name(key, k as nat);
        assert(key_pos(sprites, name) >= 0);
        lemma_key_pos(sprites, name);
        let p = key_pos(sprites, name);
        let e = sprites[p];
        lemma_sprite_name_injective(e.1.0@, e.1.1 as nat, key, k as nat);
        lemma_key_pos(sheets, key);
        let q = key_pos(sheets, key);
        assert(sheets[j].0@ == key);
        assert(q == j);
    }
    assert forall|name: Seq<char>| (#[trigger] res.resolve(name)) is Some implies exists|j: int, k: int|
        0 <= j < images.len() && 0 <= k < image_cells(images[j]) && name == #[trigger] sprite_name(
            image_key(images[j].0@),
            k as nat,
        ) by {
        lemma_key_pos(sprites, name);
        let p = key_pos(sprites, name);
        let e = sprites[p];
        lemma_key_pos(sheets, e.1.0@);
        let q = key_pos(sheets, e.1.0@);
        assert(sheet_from(sheets[q], images[q]));
        let k = e.1.1 as int;
        assert(0 <= k < sheets[q].1.sprites@.len());
        assert(sheets[q].1.sprites@.len() == image_cells(images[q]));
        assert(name == sprite_name(image_key(images[q].0@), k as nat));
    }
}

/// Builds the catalog from what the graphics backend decoded: the fonts found,
/// by file name; the images found, by file name, each of which becomes a sheet
/// cut into the cell size that its name encodes; the backend's default font;
/// and the generated fallback texture, nonempty, which the fallback sprite
/// covers whole.
/// Fails on the first image whose name does not encode a cell size, or whose
/// sheet key an earlier image already took.
pub fn load_resources(
    fonts: Vec<(String, FontInfo)>,
    images: &Vec<(String, TextureInfo)>,
    fallback_font: FontInfo,
    fallback_texture: TextureInfo,
) -> (r: Result<Resources, LoadError>)
    requires
        fallback_font.valid(),
        fallback_texture.width > 0,
        fallback_texture.height > 0,
        forall|j: int| 0 <= j < images@.len() ==> (#[trigger] images@[j]).1.id != fallback_texture.id,
    ensures
        match build_error(images@) {
            None => r matches Ok(res) && res.built_from(fonts@, images@, fallback_font, fallback_texture),
            Some(e) => r matches Err(re) && re == e,
        },
{
    let mut sheets: Vec<(String, SpriteSheet)> = Vec::new();
    let mut i: usize = 0;
    assert(images@.take(0) =~= Seq::<(String, TextureInfo)>::empty());
    while i < images.len()
        invariant
            i <= images@.len(),
            build_error(images@.take(i as int)) is None,
            sheets@.len() == i,
            forall|j: int| 0 <= j < i ==> sheet_from(#[trigger] sheets@[j], images@[j]),
            forall|a: int, b: int|
                0 <= a < b < sheets@.len() ==> (#[trigger] sheets@[a]).0@ != (#[trigger] sheets@[b]).0@,
        decreases images@.len() - i,
    {
        let ghost upto = images@.take(i + 1);
        assert(upto.drop_last() =~= images@.take(i as int));
        assert(upto.last() == images@[i as int]);
        match load_sprite_sheet(images[i].0.as_str(), images[i].1) {
            Err(e) => {
                proof {
                    lemma_build_error_prefix(images@, i + 1);
                }
                return Err(e);
            },
            Ok((key, sheet)) => {
                if let Some(q) = find_key(&sheets, &key) {
                    proof {
                        assert(sheet_from(sheets@[q as int], images@[q as int]));
                        assert(images@.take(i as int)[q as int] == images@[q as int]);
                        lemma_build_error_prefix(images@, i + 1);
                    }
                    return Err(LoadError::DuplicateSheet);
                }
                proof {
                    lemma_key_pos(sheets@, key@);
                    assert forall|j: int| 0 <= j < i implies image_key(
                        (#[trigger] images@.take(i as int)[j]).0@,
                    ) != key@ by {
                        assert(sheet_from(sheets@[j], images@[j]));
                        assert(sheets@[j].0@ != key@);
                    }
                }
                sheets.push((key, sheet));
                i = i + 1;
            },
        }
    }
    assert(images@.take(i as int) =~= images@);

    let mut sprites: Vec<(String, (String, usize))> = Vec::new();
    let mut q: usize = 0;
    while q < sheets.len()
        invariant
            q <= sheets@.len(),
            forall|a: int, b: int|
                0 <= a < b < sheets@.len() ==> (#[trigger] sheets@[a]).0@ != (#[trigger] sheets@[b]).0@,
            forall|p: int|
                0 <= p < sprites@.len() ==> {
                    let e = #[trigger] sprites@[p];
                    &&& e.0@ == sprite_name(e.1.0@, e.1.1 as nat)
                    &&& value_of(sheets@, e.1.0@) is Some
                    &&& (e.1.1 as int) < value_of(sheets@, e.1.0@)->Some_0.sprites@.len()
                },
            forall|q2: int, k: int|
                0 <= q2 < q && 0 <= k < sheets@[q2].1.sprites@.len()
                    ==> #[trigger] key_pos(sprites@, sprite_name(sheets@[q2].0@, k as nat)) >= 0,
        decreases sheets@.len() - q,
    {
        let n = sheets[q].1.sprites.len();
        let mut k: usize = 0;
        while k < n
            invariant
                q < sheets@.len(),
                forall|a: int, b: int|
                    0 <= a < b < sheets@.len() ==> (#[trigger] sheets@[a]).0@ != (#[trigger] sheets@[b]).0@,
                n == sheets@[q as int].1.sprites@.len(),
                k <= n,
                forall|p: int|
                    0 <= p < sprites@.len() ==> {
                        let e = #[trigger] sprites@[p];
                        &&& e.0@ == sprite_name(e.1.0@, e.1.1 as nat)
                        &&& value_of(sheets@, e.1.0@) is Some
                        &&& (e.1.1 as int) < value_of(sheets@, e.1.0@)->Some_0.sprites@.len()
                    },
                forall|q2: int, k2: int|
                    0 <= q2 < q && 0 <= k2 < sheets@[q2].1.sprites@.len()
                        ==> #[trigger] key_pos(sprites@, sprite_name(sheets@[q2].0@, k2 as nat)) >= 0,
                forall|k2: int|
                    0 <= k2 < k ==> #[trigger] key_pos(sprites@, sprite_name(sheets@[q as int].0@, k2 as nat)) >= 0,
            decreases n - k,
        {
            let name = make_sprite_name(&sheets[q].0, k);
            let entry = (name, (sheets[q].0.clone(), k));
            proof {
                lemma_push_keeps(sprites@, entry);
                lemma_key_pos(sheets@, sheets@[q as int].0@);
                let kp = key_pos(sheets@, sheets@[q as int].0@);
                assert(kp == q);
            }
            sprites.push(entry);
            k = k + 1;
        }
        q = q + 1;
    }

    let rect = Rect { x: 0, y: 0, width: fallback_texture.width, height: fallback_texture.height };
    let res = Resources {
        fonts,
        fallback_font,
        sprites,
        sprite_sheets: sheets,
        fallback_sprite: (fallback_texture, rect),
    };
    proof {
        lemma_resolve_cells(&res, images@);
        assert forall|j: int| 0 <= j < res.sprite_sheets@.len() implies {
            let t = (#[trigger] res.sprite_sheets@[j]).1.texture;
            &&& t.id != res.fallback_sprite.0.id
            &&& all_inside(res.sprite_sheets@[j].1.sprites@, t.width as int, t.height as int)
        } by {
            assert(sheet_from(res.sprite_sheets@[j], images@[j]));
        }
    }
    Ok(res)
}

/// The fallback font of a built catalog is the backend's default font and can
/// draw text, whatever fonts were found, none included.
pub proof fn lemma_fallback_font_valid(
    res: &Resources,
    fonts: Seq<(String, FontInfo)>,
    images: Seq<(String, TextureInfo)>,
    fallback_font: FontInfo,
    fallback_texture: TextureInfo,
)
    requires
        res.built_from(fonts, images, fallback_font, fallback_texture),
    ensures
        res.default_font() == fallback_font,
        res.default_font().valid(),
        fonts.len() == 0 ==> res.font_list().len() == 0,
{
}

/// No sprite name resolves to the fallback sprite's texture: every name that
/// resolves lands on a sheet texture, whose identity differs from it.
pub proof fn lemma_fallback_texture_distinct(res: &Resources, name: Seq<char>)
    requires
        res.wf(),
        res.resolve(name) is Some,
    ensures
        res.resolve(name)->Some_0.0.id != res.fallback().0.id,
{
    let e = value_of(res.sprites@, name)->Some_0;
    lemma_key_pos(res.sprite_sheets@, e.0@);
    let q = key_pos(res.sprite_sheets@, e.0@);
    assert(res.sprite_sheets@[q].1.texture.id != res.fallback_sprite.0.id);
}

/// In a well-formed catalog every cell that a name resolves to is nonempty and
/// lies inside its texture, and so does the fallback rectangle.
pub proof fn lemma_resolved_inside(res: &Resources, name: Seq<char>)
    requires
        res.wf(),
    ensures
        res.fallback().1.inside(res.fallback().0.width as int, res.fallback().0.height as int),
        res.resolve(name) is Some ==> {
            let (t, c) = res.resolve(name)->Some_0;
            c.inside(t.width as int, t.height as int)
        },
{
    if res.resolve(name) is Some {
        let e = value_of(res.sprites@, name)->Some_0;
        lemma_key_pos(res.sprite_sheets@, e.0@);
        let q = key_pos(res.sprite_sheets@, e.0@);
    }
}

/// In a well-formed catalog a sprite name is registered exactly when it
/// resolves to a cell.
pub proof fn lemma_registered_resolves(res: &Resources, name: Seq<char>)
    requires
        res.wf(),
    ensures
        res.sprite_entry(name) is Some <==> res.resolve(name) is Some,
{
    lemma_key_pos(res.sprites@, name);
}

/// In a well-formed catalog the entry registered under a name is the
/// (sheet key, index) pair whose sprite name it is.
pub proof fn lemma_entry_names(res: &Resources, name: Seq<char>)
    requires
        res.wf(),
    ensures
        res.sprite_entry(name) is Some ==> {
            let (key, index) = res.sprite_entry(name)->Some_0;
            index >= 0 && name == sprite_name(key, index as nat)
        },
{
    lemma_key_pos(res.sprites@, name);
    if res.sprite_entry(name) is Some {
    }
}

/// Two catalogs built from the same files, whose images have the same sizes,
/// register the same sprite names and resolve each to the same rectangle; only
/// the texture identities, which the backend hands out, may differ.
pub proof fn lemma_rebuild_same_sprites(
    r1: &Resources,
    r2: &Resources,
    fonts1: Seq<(String, FontInfo)>,
    fonts2: Seq<(String, FontInfo)>,
    images1: Seq<(String, TextureInfo)>,
    images2: Seq<(String, TextureInfo)>,
    font1: FontInfo,
    font2: FontInfo,
    texture1: TextureInfo,
    texture2: TextureInfo,
    name: Seq<char>,
)
    requires
        r1.built_from(fonts1, images1, font1, texture1),
        r2.built_from(fonts2, images2, font2, texture2),
        images1.len() == images2.len(),
        forall|j: int|
            0 <= j < images1.len() ==> (#[trigger] images1[j]).0@ == images2[j].0@ && images1[j].1.width
                == images2[j].1.width && images1[j].1.height == images2[j].1.height,
    ensures
        r1.sprite_entry(name) is Some <==> r2.sprite_entry(name) is Some,
        r1.sprite_entry(name) == r2.sprite_entry(name),
        r1.resolve(name) is Some <==> r2.resolve(name) is Some,
        r1.resolve(name) is Some ==> r1.resolve(name)->Some_0.1 == r2.resolve(name)->Some_0.1,
{
    lemma_registered_resolves(r1, name);
    lemma_registered_resolves(r2, name);
    lemma_entry_names(r1, name);
    lemma_entry_names(r2, name);
    if r1.resolve(name) is Some {
        let (j, k) = choose|j: int, k: int|
            0 <= j < images1.len() && 0 <= k < image_cells(images1[j]) && name == #[trigger] sprite_name(
                image_key(images1[j].0@),
                k as nat,
            );
        assert(images1[j].0@ == images2[j].0@);
        assert(r1.resolve(sprite_name(image_key(images1[j].0@), k as nat)) is Some);
        assert(r2.resolve(sprite_name(image_key(images2[j].0@), k as nat)) is Some);
    }
    if r2.resolve(name) is Some {
        let (j, k) = choose|j: int, k: int|
            0 <= j < images2.len() && 0 <= k < image_cells(images2[j]) && name == #[trigger] sprite_name(
                image_key(images2[j].0@),
                k as nat,
            );
        assert(images1[j].0@ == images2[j].0@);
        assert(r1.resolve(sprite_name(image_key(images1[j].0@), k as nat)) is Some);
    }
    if r1.sprite_entry(name) is Some && r2.sprite_entry(name) is Some {
        let e1 = r1.sprite_entry(name)->Some_0;
        let e2 = r2.sprite_entry(name)->Some_0;
        lemma_sprite_name_injective(e1.0, e1.1 as nat, e2.0, e2.1 as nat);
    }
}

} // verus!
