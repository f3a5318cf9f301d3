use vstd::prelude::*;

verus! {

/// The pixels of one texture, row by row, four bytes to the pixel.
#[derive(Debug, Clone)]
pub struct Texture {
    pub raw: Vec<u8>,
    pub width: u32,
    pub height: u32,
    pub label: String,
}

/// What a texture is.
pub struct TextureView {
    pub raw: Seq<u8>,
    pub width: u32,
    pub height: u32,
    pub label: Seq<char>,
}

impl View for Texture {
    type V = TextureView;

    open spec fn view(&self) -> TextureView {
        TextureView { raw: self.raw@, width: self.width, height: self.height, label: self.label@ }
    }
}

impl Texture {
    /// A texture of the given label, pixels and shape.
    pub fn new(label: &str, raw: Vec<u8>, width: u32, height: u32) -> (texture: Self)
        ensures
            texture@ == (TextureView { raw: raw@, width, height, label: label@ }),
    {
        Self { raw, width, height, label: label.to_owned() }
    }
}

/// The place of `name` among `names`, if it is there.
fn position_of(names: &Vec<String>, name: &String) -> (r: Option<usize>)
    ensures
        match r {
            Some(i) => i < names@.len() && names@[i as int]@ == name@ && forall|j: int|
                0 <= j < i ==> names@[j]@ != name@,
            None => forall|j: int| 0 <= j < names@.len() ==> names@[j]@ != name@,
        },
{
    let mut i: usize = 0;
    while i < names.len()
        invariant
            i <= names@.len(),
            forall|j: int| 0 <= j < i ==> names@[j]@ != name@,
        decreases names@.len() - i,
    {
        if names[i] == *name {
            return Some(i);
        }
        i += 1;
    }
    None
}

/// The characters of each of `names`.
pub open spec fn name_views(names: Seq<String>) -> Seq<Seq<char>> {
    names.map_values(|n: String| n@)
}

/// The views of each of `textures`.
pub open spec fn texture_views(textures: Seq<Texture>) -> Seq<TextureView> {
    textures.map_values(|t: Texture| t@)
}

/// Collects the textures of a program, all of one shape, each under a name
/// of its own, before they are handed over together.
pub struct TextureManagerBuilder {
    names: Vec<String>,
    textures: Vec<Texture>,
    width: Option<u32>,
    height: Option<u32>,
}

impl TextureManagerBuilder {
    /// The names of the textures, in the order in which they were first added.
    pub closed spec fn names(&self) -> Seq<Seq<char>> {
        name_views(self.names@)
    }

    /// The textures, each at the place of its name.
    pub closed spec fn textures(&self) -> Seq<TextureView> {
        texture_views(self.textures@)
    }

    /// The width that the textures must have, once it is known.
    pub closed spec fn width(&self) -> Option<u32> {
        self.width
    }

    /// The height that the textures must have, once it is known.
    pub closed spec fn height(&self) -> Option<u32> {
        self.height
    }

    /// Each texture has one name, and no name stands for two textures.
    pub closed spec fn wf(&self) -> bool {
        self.names@.len() == self.textures@.len() && self.names().no_duplicates()
    }

    /// Whether a texture of the given shape may be added: where both width
    /// and height are known, it must have them.
    pub open spec fn accepts(&self, width: u32, height: u32) -> bool {
        self.width() is Some && self.height() is Some ==> self.width() == Some(width)
            && self.height() == Some(height)
    }

    /// A builder without textures, for the given shape as far as it is known.
    pub fn new(width: Option<u32>, height: Option<u32>) -> (builder: Self)
        ensures
            builder.wf(),
            builder.names() == Seq::<Seq<char>>::empty(),
            builder.textures() == Seq::<TextureView>::empty(),
            builder.width() == width,
            builder.height() == height,
    {
        let builder = Self { names: Vec::new(), textures: Vec::new(), width, height };
        proof {
            assert(builder.names() =~= Seq::<Seq<char>>::empty());
            assert(builder.textures() =~= Seq::<TextureView>::empty());
        }
        builder
    }

    /// Adds `texture` under `name`, in the place of the texture that had the
    /// name before, if there was one. Where no width was known, the
    /// texture's shape becomes the shape of the builder.
    pub fn add_texture(&mut self, name: &str, texture: Texture)
        requires
            old(self).wf(),
            old(self).accepts(texture.width, texture.height),
        ensures
            final(self).wf(),
            old(self).width() is Some ==> final(self).width() == old(self).width()
                && final(self).height() == old(self).height(),
            old(self).width() is None ==> final(self).width() == Some(texture.width)
                && final(self).height() == Some(texture.height),
            old(self).names().contains(name@) ==> final(self).names() == old(self).names()
                && final(self).textures() == old(self).textures().update(
                old(self).names().index_of(name@),
                texture@,
            ),
            !old(self).names().contains(name@) ==> final(self).names() == old(self).names().push(
                name@,
            ) && final(self).textures() == old(self).textures().push(texture@),
    {
        if self.width.is_none() {
            self.width = Some(texture.width);
            self.height = Some(texture.height);
        }
        let owned = name.to_owned();
        let ghost before_names = self.names@;
        let ghost before_textures = self.textures@;
        match position_of(&self.names, &owned) {
            Some(i) => {
                proof {
                    assert(name_views(before_names)[i as int] == name@);
                    assert(name_views(before_names).contains(name@));
                    let k = name_views(before_names).index_of(name@);
                    assert(name_views(before_names)[k] == name@);
                    assert(k == i);
                }
                self.textures[i] = texture;
                proof {
                    assert(texture_views(self.textures@) =~= texture_views(
                        before_textures,
                    ).update(i as int, texture@));
                }
            },
            None => {
                proof {
                    if name_views(before_names).contains(name@) {
                        let k = choose|k: int|
                            0 <= k < name_views(before_names).len() && name_views(
                                before_names,
                            )[k] == name@;
                        assert(before_names[k]@ == name@);
                    }
                }
                self.names.push(owned);
                self.textures.push(texture);
                proof {
                    assert(name_views(self.names@) =~= name_views(before_names).push(name@));
                    assert(texture_views(self.textures@) =~= texture_views(before_textures).push(
                        texture@,
                    ));
                }
            },
        }
    }
}

/// The textures of a program, each with a name and an index of its own.
pub struct TextureManager {
    names: Vec<String>,
    textures: Vec<Texture>,
    width: u32,
    height: u32,
}

impl TextureManager {
    /// The names of the textures; the place of a name is the index of its texture.
    pub closed spec fn names(&self) -> Seq<Seq<char>> {
        name_views(self.names@)
    }

    /// The textures, each at its index.
    pub closed spec fn textures(&self) -> Seq<TextureView> {
        texture_views(self.textures@)
    }

    /// The width of every texture.
    pub closed spec fn spec_width(&self) -> u32 {
        self.width
    }

    /// The height of every texture.
    pub closed spec fn spec_height(&self) -> u32 {
        self.height
    }

    /// Each texture has one name, and no name stands for two textures.
    pub closed spec fn wf(&self) -> bool {
        self.names@.len() == self.textures@.len() && self.names().no_duplicates()
    }

    /// The manager of the textures that `value` collected. A texture's index
    /// is the place at which its name was first added.
    pub fn from(value: TextureManagerBuilder) -> (manager: Self)
        requires
            value.wf(),
            value.width() is Some,
            value.height() is Some,
        ensures
            manager.wf(),
            manager.names() == value.names(),
            manager.textures() == value.textures(),
            Some(manager.spec_width()) == value.width(),
            Some(manager.spec_height()) == value.height(),
    {
        let width = value.width.unwrap();
        let height = value.height.unwrap();
        Self { names: value.names, textures: value.textures, width, height }
    }

    /// The width of every texture.
    #[verifier::when_used_as_spec(spec_width)]
    pub fn width(&self) -> (w: u32)
        ensures
            w == self.spec_width(),
    {
        self.width
    }

    /// The height of every texture.
    #[verifier::when_used_as_spec(spec_height)]
    pub fn height(&self) -> (h: u32)
        ensures
            h == self.spec_height(),
    {
        self.height
    }

    /// The number of textures.
    pub fn len(&self) -> (n: usize)
        requires
            self.wf(),
        ensures
            n == self.names().len(),
    {
        self.names.len()
    }

    /// The texture with index `index`.
    pub fn texture(&self, index: usize) -> (texture: &Texture)
        requires
            self.wf(),
            index < self.names().len(),
        ensures
            texture@ == self.textures()[index as int],
    {
        &self.textures[index]
    }

    /// The index of the texture named `key`, if there is one.
    pub fn lookup_idx(&self, key: &str) -> (r: Option<usize>)
        requires
            self.wf(),
        ensures
            r is Some <==> self.names().contains(key@),
            r matches Some(i) ==> i < self.names().len() && self.names()[i as int] == key@,
    {
        let owned = key.to_owned();
        let r = position_of(&self.names, &owned);
        proof {
            match r {
                Some(i) => {
                    assert(self.names()[i as int] == key@);
                },
                None => {
                    if self.names().contains(key@) {
                        let k = choose|k: int|
                            0 <= k < self.names().len() && self.names()[k] == key@;
                        assert(self.names@[k]@ == key@);
                    }
                },
            }
        }
        r
    }
}

impl Default for TextureManager {
    fn default() -> (manager: Self)
        ensures
            manager.wf(),
            manager.names() == Seq::<Seq<char>>::empty(),
            manager.spec_width() == 0,
            manager.spec_height() == 0,
    {
        let manager = Self { names: Vec::new(), textures: Vec::new(), width: 0, height: 0 };
        proof {
            assert(manager.names() =~= Seq::<Seq<char>>::empty());
        }
        manager
    }
}

} // verus!
