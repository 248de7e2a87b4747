use vstd::prelude::*;
use crate::block::{Block, BlockTexture, TextureID, is_rendered};
use crate::light::LightSource;

verus! {

/// Digest that std's `DefaultHasher` gives for a texture name.
pub uninterp spec fn texture_hash(name: Seq<char>) -> u64;

/// Relies on `std::collections::hash_map::DefaultHasher` (created with `new`, fixed keys)
/// hashing the name as a `String`: the identifier depends on the name alone.
#[verifier::external_body]
fn hash_texture_name(name: &str) -> (r: u64)
    ensures
        r == texture_hash(name@),
{
    let mut hasher = std::collections::hash_map::DefaultHasher::new();
    std::hash::Hash::hash(&name.to_string(), &mut hasher);
    std::hash::Hasher::finish(&hasher)
}

impl TextureID {
    /// The identifier of a texture name.
    pub fn from_name(name: &str) -> (r: TextureID)
        ensures
            r.0 == texture_hash(name@),
    {
        TextureID(hash_texture_name(name))
    }

    pub fn id(&self) -> (r: u64)
        ensures
            r == self.0,
    {
        self.0
    }
}

/// A block type as written in a definition file.
pub struct BlockDescriptor {
    pub name: String,
    pub texture: Vec<String>,
    pub is_transparent: bool,
    pub is_solid: bool,
    pub is_lightsource: bool,
}

/// Why the registry refused its input or a lookup failed.
#[derive(Clone, Copy, Debug, PartialEq, Eq, Structural)]
pub enum BlockError {
    /// No block type of that name is registered.
    UnknownBlock,
    /// A block type names a number of textures other than 0, 1 or 3.
    InvalidTextureCount,
}

pub open spec fn valid_texture_count(n: int) -> bool {
    n == 0 || n == 1 || n == 3
}

/// The textures that a descriptor's names give.
pub open spec fn texture_of(names: Seq<String>) -> Option<BlockTexture> {
    if names.len() == 1 {
        Some(BlockTexture::Single(TextureID(texture_hash(names[0]@))))
    } else if names.len() == 3 {
        Some(BlockTexture::Sided(TextureID(texture_hash(names[0]@)), TextureID(texture_hash(names[1]@)),
            TextureID(texture_hash(names[2]@))))
    } else {
        None
    }
}

/// The block template of a descriptor: emitters start as full-strength white light, and
/// no template is sunlit.
pub open spec fn template_of(d: BlockDescriptor) -> Block {
    Block {
        texture_id: texture_of(d.texture@),
        is_transparent: d.is_transparent,
        is_solid: d.is_solid,
        light_source: if d.is_lightsource {
            Some(LightSource { red: true, green: true, blue: true, strength: 15 })
        } else {
            None
        },
        sunlit: false,
    }
}

impl Block {
    /// The template block of a descriptor with 0, 1 or 3 textures.
    pub fn from_descriptor(val: &BlockDescriptor) -> (r: Block)
        requires
            valid_texture_count(val.texture@.len() as int),
        ensures
            r == template_of(*val),
    {
        let texture_id = if val.texture.len() == 1 {
            Some(BlockTexture::Single(TextureID::from_name(val.texture[0].as_str())))
        } else if val.texture.len() == 3 {
            Some(BlockTexture::Sided(
                TextureID::from_name(val.texture[0].as_str()),
                TextureID::from_name(val.texture[1].as_str()),
                TextureID::from_name(val.texture[2].as_str()),
            ))
        } else {
            None
        };
        Block {
            texture_id,
            is_transparent: val.is_transparent,
            is_solid: val.is_solid,
            light_source: if val.is_lightsource { Some(LightSource::default()) } else { None },
            sunlit: false,
        }
    }
}

/// The catalogue of block types, built once from their descriptors.
pub struct BlockManager {
    names: Vec<String>,
    blocks: Vec<Block>,
    texture_names: Vec<Vec<String>>,
    all_block_names: Vec<String>,
    all_rendered_block_names: Vec<String>,
    all_texture_names: Vec<String>,
    texture_ids: Vec<TextureID>,
}

pub open spec fn strings_distinct(s: Seq<String>) -> bool {
    forall|i: int, j: int| 0 <= i < s.len() && 0 <= j < s.len() && i != j ==> (#[trigger] s[i])@ != (#[trigger] s[j])@
}

pub open spec fn rendered_at(rendered: Seq<String>, names: Seq<String>, blocks: Seq<Block>, a: int) -> bool {
    exists|j: int| 0 <= j < names.len() && rendered[a]@ == names[j]@ && is_rendered(blocks[j])
}

/// Every name in `rendered` names a rendered block type.
pub open spec fn rendered_ok(rendered: Seq<String>, names: Seq<String>, blocks: Seq<Block>) -> bool {
    forall|a: int| 0 <= a < rendered.len() ==> #[trigger] rendered_at(rendered, names, blocks, a)
}

/// Entry `a` holds the template of the last descriptor before `n` with its name.
pub open spec fn latest_template(names: Seq<String>, blocks: Seq<Block>, ds: Seq<BlockDescriptor>, n: int, a: int) -> bool {
    exists|j: int| 0 <= j < n && ds[j].name@ == names[a]@ && blocks[a] == template_of(ds[j])
        && forall|j2: int| j < j2 < n ==> (#[trigger] ds[j2].name@) != names[a]@
}

/// The names of the rendered block types.
pub open spec fn rendered_set(names: Seq<String>, blocks: Seq<Block>) -> Set<Seq<char>> {
    Set::new(|n: Seq<char>| exists|a: int| 0 <= a < names.len() && (#[trigger] names[a])@ == n && is_rendered(blocks[a]))
}

/// Every name in `names` is the name of some descriptor.
pub open spec fn all_from(names: Seq<String>, ds: Seq<BlockDescriptor>) -> bool {
    forall|a: int| 0 <= a < names.len() ==> exists|j: int| 0 <= j < ds.len() && (#[trigger] names[a])@ == ds[j].name@
}

pub open spec fn names_of(s: Seq<String>) -> Set<Seq<char>> {
    Set::new(|n: Seq<char>| exists|i: int| 0 <= i < s.len() && (#[trigger] s[i])@ == n)
}

impl BlockManager {
    pub closed spec fn entry_names(&self) -> Seq<String> {
        self.names@
    }

    pub closed spec fn entry_blocks(&self) -> Seq<Block> {
        self.blocks@
    }

    pub closed spec fn block_names(&self) -> Seq<String> {
        self.all_block_names@
    }

    pub closed spec fn rendered_names(&self) -> Seq<String> {
        self.all_rendered_block_names@
    }

    pub closed spec fn texture_name_list(&self) -> Seq<String> {
        self.all_texture_names@
    }

    pub closed spec fn texture_id_list(&self) -> Seq<TextureID> {
        self.texture_ids@
    }

    pub open spec fn wf(&self) -> bool {
        &&& self.entry_names().len() == self.entry_blocks().len()
        &&& strings_distinct(self.entry_names())
        &&& ascending(self.block_names())
        &&& strings_distinct(self.block_names())
        &&& names_of(self.block_names()) == names_of(self.entry_names())
        &&& ascending(self.rendered_names())
        &&& strings_distinct(self.rendered_names())
        &&& names_of(self.rendered_names()) == rendered_set(self.entry_names(), self.entry_blocks())
        &&& ascending(self.texture_name_list())
        &&& strings_distinct(self.texture_name_list())
        &&& self.texture_id_list().len() == self.texture_name_list().len()
        &&& forall|i: int| 0 <= i < self.texture_id_list().len() ==>
            (#[trigger] self.texture_id_list()[i]).0 == texture_hash(self.texture_name_list()[i]@)
    }

    /// Whether a block type of this name is registered.
    pub open spec fn has(&self, name: Seq<char>) -> bool {
        exists|i: int| 0 <= i < self.entry_names().len() && (#[trigger] self.entry_names()[i])@ == name
    }

    /// Builds the catalogue. A later descriptor with the same name replaces an earlier one.
    /// The block names, the rendered block names and the texture names (those of all
    /// descriptors and `texture_file_names`) are listed sorted by their bytes, each once.
    pub fn new(descriptors: Vec<BlockDescriptor>, texture_file_names: Vec<String>) -> (r: Result<BlockManager, BlockError>)
        ensures
            r is Err <==> exists|i: int| 0 <= i < descriptors@.len()
                && !valid_texture_count((#[trigger] descriptors@[i]).texture@.len() as int),
            r matches Err(e) ==> e == BlockError::InvalidTextureCount,
            r matches Ok(m) ==> m.wf()
                && (forall|i: int| 0 <= i < descriptors@.len() ==> m.has((#[trigger] descriptors@[i]).name@))
                && all_from(m.entry_names(), descriptors@)
                && (forall|a: int| 0 <= a < m.entry_names().len() ==> #[trigger] latest_template(m.entry_names(),
                    m.entry_blocks(), descriptors@, descriptors@.len() as int, a)),
    {
        let mut k: usize = 0;
        while k < descriptors.len()
            invariant
                k <= descriptors@.len(),
                forall|i: int| 0 <= i < k ==> valid_texture_count((#[trigger] descriptors@[i]).texture@.len() as int),
            decreases descriptors@.len() - k,
        {
            let n = descriptors[k].texture.len();
            if !(n == 0 || n == 1 || n == 3) {
                return Err(BlockError::InvalidTextureCount);
            }
            k = k + 1;
        }
        let mut names: Vec<String> = Vec::new();
        let mut blocks: Vec<Block> = Vec::new();
        let mut texture_names: Vec<Vec<String>> = Vec::new();
        let mut i: usize = 0;
        while i < descriptors.len()
            invariant
                i <= descriptors@.len(),
                forall|j: int| 0 <= j < descriptors@.len() ==> valid_texture_count((#[trigger] descriptors@[j]).texture@.len() as int),
                names@.len() == blocks@.len(),
                names@.len() == texture_names@.len(),
                strings_distinct(names@),
                forall|j: int| 0 <= j < i ==> #[trigger] names_of(names@).contains(descriptors@[j].name@),
                all_from(names@, descriptors@),
                forall|a: int| 0 <= a < names@.len() ==> #[trigger] latest_template(names@, blocks@, descriptors@, i as int, a),
            decreases descriptors@.len() - i,
        {
            let d = &descriptors[i];
            let block = Block::from_descriptor(d);
            let found = index_in(&names, d.name.as_str());
            let ghost before = names@;
            let ghost before_blocks = blocks@;
            match found {
                Some(idx) => {
                    blocks.set(idx, block);
                    texture_names.set(idx, clone_strings(&d.texture));
                    proof {
                        assert forall|a: int| 0 <= a < names@.len() implies #[trigger] latest_template(names@, blocks@, descriptors@, i + 1, a) by {
                            if a == idx as int {
                                assert(descriptors@[i as int].name@ == names@[a]@ && blocks@[a] == template_of(descriptors@[i as int]));
                            } else {
                                assert(latest_template(before, before_blocks, descriptors@, i as int, a));
                                let j = choose|j: int| 0 <= j < i && descriptors@[j].name@ == before[a]@ && before_blocks[a] == template_of(descriptors@[j])
                                    && forall|j2: int| j < j2 < i ==> (#[trigger] descriptors@[j2].name@) != before[a]@;
                                assert(names@[a]@ != names@[idx as int]@);
                                assert(blocks@[a] == before_blocks[a]);
                                assert forall|j2: int| j < j2 < i + 1 implies (#[trigger] descriptors@[j2].name@) != names@[a]@ by {
                                    if j2 == i as int {
                                        assert(descriptors@[j2].name@ == names@[idx as int]@);
                                    }
                                }
                            }
                        }
                        assert(names_of(names@).contains(descriptors@[i as int].name@)) by {
                            assert(names@[idx as int]@ == d.name@);
                        }
                    }
                },
                None => {
                    let name = d.name.clone();
                    names.push(name);
                    blocks.push(block);
                    texture_names.push(clone_strings(&d.texture));
                    proof {
                        assert forall|a: int| 0 <= a < names@.len() implies #[trigger] latest_template(names@, blocks@, descriptors@, i + 1, a) by {
                            if a == before.len() {
                                assert(descriptors@[i as int].name@ == names@[a]@ && blocks@[a] == template_of(descriptors@[i as int]));
                            } else {
                                assert(latest_template(before, before_blocks, descriptors@, i as int, a));
                                let j = choose|j: int| 0 <= j < i && descriptors@[j].name@ == before[a]@ && before_blocks[a] == template_of(descriptors@[j])
                                    && forall|j2: int| j < j2 < i ==> (#[trigger] descriptors@[j2].name@) != before[a]@;
                                assert(names@[a] == before[a] && blocks@[a] == before_blocks[a]);
                                assert forall|j2: int| j < j2 < i + 1 implies (#[trigger] descriptors@[j2].name@) != names@[a]@ by {
                                    if j2 == i as int {
                                        assert(before[a]@ != d.name@);
                                    }
                                }
                            }
                        }
                        assert(names@[before.len() as int]@ == d.name@);
                        assert forall|a: int, b: int| 0 <= a < names@.len() && 0 <= b < names@.len() && a != b
                            implies (#[trigger] names@[a])@ != (#[trigger] names@[b])@ by {
                            if a < before.len() && b < before.len() {
                                assert(names@[a] == before[a] && names@[b] == before[b]);
                            } else if a < before.len() {
                                assert(names@[a] == before[a]);
                            } else if b < before.len() {
                                assert(names@[b] == before[b]);
                            }
                        }
                        assert forall|j: int| 0 <= j < i + 1 implies #[trigger] names_of(names@).contains(descriptors@[j].name@) by {
                            if j < i {
                                assert(names_of(before).contains(descriptors@[j].name@));
                                let a = choose|a: int| 0 <= a < before.len() && (#[trigger] before[a])@ == descriptors@[j].name@;
                                assert(names@[a] == before[a]);
                            } else {
                                assert(names@[before.len() as int]@ == descriptors@[j].name@);
                            }
                        }
                        assert forall|a: int| 0 <= a < names@.len() implies exists|j: int| 0 <= j < descriptors@.len()
                            && (#[trigger] names@[a])@ == descriptors@[j].name@ by {
                            if a < before.len() {
                                assert(names@[a] == before[a]);
                                let j = choose|j: int| 0 <= j < descriptors@.len() && (#[trigger] before[a])@ == descriptors@[j].name@;
                                assert(names@[a]@ == descriptors@[j].name@);
                            } else {
                                assert(names@[a]@ == descriptors@[i as int].name@);
                            }
                        }
                    }
                },
            }
            i = i + 1;
        }
        let mut rendered: Vec<String> = Vec::new();
        let mut r: usize = 0;
        while r < names.len()
            invariant
                r <= names@.len(),
                names@.len() == blocks@.len(),
                names@.len() == texture_names@.len(),
                strings_distinct(names@),
                forall|j: int| 0 <= j < descriptors@.len() ==> #[trigger] names_of(names@).contains(descriptors@[j].name@),
                all_from(names@, descriptors@),
                rendered_ok(rendered@, names@, blocks@),
                forall|a: int| 0 <= a < r && is_rendered(blocks@[a]) ==> names_of(rendered@).contains((#[trigger] names@[a])@),
            decreases names@.len() - r,
        {
            if blocks[r].is_rendered() {
                let ghost before = rendered@;
                rendered.push(names[r].clone());
                proof {
                    assert forall|a: int| 0 <= a < rendered@.len() implies
                        #[trigger] rendered_at(rendered@, names@, blocks@, a) by {
                        if a < before.len() {
                            assert(rendered_at(before, names@, blocks@, a));
                            assert(rendered@[a] == before[a]);
                        } else {
                            assert(rendered@[a]@ == names@[r as int]@ && is_rendered(blocks@[r as int]));
                        }
                    }
                    assert forall|a: int| 0 <= a < r + 1 && is_rendered(blocks@[a]) implies names_of(rendered@).contains((#[trigger] names@[a])@) by {
                        if a < r {
                            let w = choose|w: int| 0 <= w < before.len() && (#[trigger] before[w])@ == names@[a]@;
                            assert(rendered@[w] == before[w]);
                        } else {
                            assert(rendered@[rendered@.len() - 1]@ == names@[a]@);
                        }
                    }
                }
            }
            r = r + 1;
        }
        let mut all_textures: Vec<String> = Vec::new();
        let mut ids: Vec<TextureID> = Vec::new();
        let mut t: usize = 0;
        while t < texture_names.len()
            invariant
                t <= texture_names@.len(),
                strings_distinct(all_textures@),
                ids@.len() == all_textures@.len(),
                forall|a: int| 0 <= a < ids@.len() ==> (#[trigger] ids@[a]).0 == texture_hash(all_textures@[a]@),
            decreases texture_names@.len() - t,
        {
            add_texture_names(&mut all_textures, &mut ids, &texture_names[t]);
            t = t + 1;
        }
        add_texture_names(&mut all_textures, &mut ids, &texture_file_names);
        let sorted_textures = sort_names(&all_textures);
        let mut sorted_ids: Vec<TextureID> = Vec::new();
        let mut q: usize = 0;
        while q < sorted_textures.len()
            invariant
                q <= sorted_textures@.len(),
                sorted_ids@.len() == q,
                forall|a: int| 0 <= a < q ==> (#[trigger] sorted_ids@[a]).0 == texture_hash(sorted_textures@[a]@),
            decreases sorted_textures@.len() - q,
        {
            sorted_ids.push(TextureID::from_name(sorted_textures[q].as_str()));
            q = q + 1;
        }
        let all_names = sort_names(&names);
        let sorted_rendered = sort_names(&rendered);
        proof {
            assert(names_of(rendered@) =~= rendered_set(names@, blocks@)) by {
                assert forall|n: Seq<char>| #[trigger] names_of(rendered@).contains(n) implies rendered_set(names@, blocks@).contains(n) by {
                    let w = choose|w: int| 0 <= w < rendered@.len() && (#[trigger] rendered@[w])@ == n;
                    assert(rendered_at(rendered@, names@, blocks@, w));
                }
            }
        }
        let out = BlockManager {
            names,
            blocks,
            texture_names,
            all_block_names: all_names,
            all_rendered_block_names: sorted_rendered,
            all_texture_names: sorted_textures,
            texture_ids: sorted_ids,
        };
        proof {
            assert forall|j: int| 0 <= j < descriptors@.len() implies out.has((#[trigger] descriptors@[j]).name@) by {
                assert(names_of(out.names@).contains(descriptors@[j].name@));
                let a = choose|a: int| 0 <= a < out.names@.len() && (#[trigger] out.names@[a])@ == descriptors@[j].name@;
                assert(out.entry_names()[a]@ == descriptors@[j].name@);
            }
        }
        Ok(out)
    }

    fn index_of(&self, k: &str) -> (r: Option<usize>)
        ensures
            r matches Some(i) ==> i < self.names@.len() && self.names@[i as int]@ == k@,
            r is None ==> forall|i: int| 0 <= i < self.names@.len() ==> (#[trigger] self.names@[i])@ != k@,
    {
        index_in(&self.names, k)
    }

    /// The template of a block type.
    pub fn get(&self, k: &str) -> (r: Option<&Block>)
        requires
            self.wf(),
        ensures
            r is Some <==> self.has(k@),
            r matches Some(b) ==> exists|i: int| 0 <= i < self.entry_names().len() && (#[trigger] self.entry_names()[i])@ == k@
                && *b == self.entry_blocks()[i],
    {
        match self.index_of(k) {
            Some(i) => Some(&self.blocks[i]),
            None => None,
        }
    }

    /// The template of a block type, or `UnknownBlock`.
    pub fn lookup(&self, k: &str) -> (r: Result<Block, BlockError>)
        requires
            self.wf(),
        ensures
            r is Ok <==> self.has(k@),
            r matches Err(e) ==> e == BlockError::UnknownBlock,
            r matches Ok(b) ==> exists|i: int| 0 <= i < self.entry_names().len() && (#[trigger] self.entry_names()[i])@ == k@
                && b == self.entry_blocks()[i],
    {
        match self.get(k) {
            Some(b) => Ok(*b),
            None => Err(BlockError::UnknownBlock),
        }
    }

    pub fn all_block_names(&self) -> (r: &Vec<String>)
        ensures
            r@ == self.block_names(),
    {
        &self.all_block_names
    }

    pub fn all_rendered_block_names(&self) -> (r: &Vec<String>)
        ensures
            r@ == self.rendered_names(),
    {
        &self.all_rendered_block_names
    }

    pub fn all_texture_names(&self) -> (r: &Vec<String>)
        ensures
            r@ == self.texture_name_list(),
    {
        &self.all_texture_names
    }

    /// The name of a known texture identifier.
    pub fn get_texture_name(&self, k: &TextureID) -> (r: Option<&String>)
        requires
            self.wf(),
        ensures
            r matches Some(n) ==> exists|i: int| 0 <= i < self.texture_name_list().len()
                && (#[trigger] self.texture_id_list()[i]) == *k && self.texture_name_list()[i] == *n,
            r is None ==> forall|i: int| 0 <= i < self.texture_id_list().len() ==> (#[trigger] self.texture_id_list()[i]) != *k,
    {
        let mut i: usize = 0;
        while i < self.texture_ids.len()
            invariant
                i <= self.texture_ids@.len(),
                self.wf(),
                forall|j: int| 0 <= j < i ==> (#[trigger] self.texture_ids@[j]) != *k,
            decreases self.texture_ids@.len() - i,
        {
            if self.texture_ids[i].0 == k.0 {
                return Some(&self.all_texture_names[i]);
            }
            i = i + 1;
        }
        None
    }
}

fn index_in(names: &Vec<String>, k: &str) -> (r: Option<usize>)
    ensures
        r matches Some(i) ==> i < names@.len() && names@[i as int]@ == k@,
        r is None ==> forall|i: int| 0 <= i < names@.len() ==> (#[trigger] names@[i])@ != k@,
{
    let key = k.to_owned();
    let mut i: usize = 0;
    while i < names.len()
        invariant
            i <= names@.len(),
            key@ == k@,
            forall|j: int| 0 <= j < i ==> (#[trigger] names@[j])@ != k@,
        decreases names@.len() - i,
    {
        if names[i] == key {
            return Some(i);
        }
        i = i + 1;
    }
    None
}


/// The bytes of a name (its UTF-8 encoding), which order names.
pub open spec fn name_key(s: Seq<char>) -> Seq<u8> {
    vstd::utf8::encode_utf8(s)
}

/// `a` comes strictly before `b` in byte-wise lexicographic order.
pub open spec fn lex_lt(a: Seq<u8>, b: Seq<u8>) -> bool {
    exists|i: int| 0 <= i <= a.len() && i <= b.len() && #[trigger] a.subrange(0, i) == b.subrange(0, i)
        && ((i == a.len() && i < b.len()) || (i < a.len() && i < b.len() && a[i] < b[i]))
}

/// Each name comes strictly before the next, by its bytes.
pub open spec fn ascending(v: Seq<String>) -> bool {
    forall|i: int| 0 <= i && i + 1 < v.len() ==> lex_lt(name_key((#[trigger] v[i])@), name_key(v[i + 1]@))
}

proof fn lemma_key_injective(a: Seq<char>, b: Seq<char>)
    requires
        name_key(a) == name_key(b),
    ensures
        a == b,
{
    vstd::utf8::encode_utf8_decode_utf8(a);
    vstd::utf8::encode_utf8_decode_utf8(b);
}

/// Compares two names by their bytes: negative, zero or positive.
fn compare_names(a: &String, b: &String) -> (r: i8)
    ensures
        r == 0 ==> name_key(a@) == name_key(b@),
        r < 0 ==> lex_lt(name_key(a@), name_key(b@)),
        r > 0 ==> lex_lt(name_key(b@), name_key(a@)),
{
    let x = a.as_str().as_bytes();
    let y = b.as_str().as_bytes();
    assert(x@ == name_key(a@));
    assert(y@ == name_key(b@));
    let mut i: usize = 0;
    while i < x.len() && i < y.len()
        invariant
            i <= x@.len(),
            i <= y@.len(),
            x@ == name_key(a@),
            y@ == name_key(b@),
            x@.subrange(0, i as int) == y@.subrange(0, i as int),
        decreases x@.len() - i,
    {
        if x[i] < y[i] {
            assert(x@.subrange(0, i as int) == y@.subrange(0, i as int));
            return -1;
        }
        if x[i] > y[i] {
            assert(y@.subrange(0, i as int) == x@.subrange(0, i as int));
            return 1;
        }
        assert(x@.subrange(0, i + 1) =~= y@.subrange(0, i + 1)) by {
            assert forall|k: int| 0 <= k < i + 1 implies #[trigger] x@.subrange(0, i + 1)[k] == y@.subrange(0, i + 1)[k] by {
                if k < i {
                    assert(x@.subrange(0, i as int)[k] == y@.subrange(0, i as int)[k]);
                }
            }
        }
        i = i + 1;
    }
    if x.len() == y.len() {
        assert(x@ =~= x@.subrange(0, i as int));
        assert(y@ =~= y@.subrange(0, i as int));
        0
    } else if x.len() < y.len() {
        assert(x@.subrange(0, i as int) == y@.subrange(0, i as int));
        -1
    } else {
        assert(y@.subrange(0, i as int) == x@.subrange(0, i as int));
        1
    }
}

/// Puts `s` into its place in an ascending list of distinct names, unless it is there.
#[verifier::rlimit(100)]
#[verifier::spinoff_prover]
fn insert_sorted(out: &mut Vec<String>, s: String)
    requires
        ascending(old(out)@),
        strings_distinct(old(out)@),
    ensures
        ascending(final(out)@),
        strings_distinct(final(out)@),
        names_of(final(out)@) == names_of(old(out)@).insert(s@),
{
    if index_in(out, s.as_str()).is_some() {
        proof {
            assert(names_of(out@).contains(s@));
            assert(names_of(out@).insert(s@) =~= names_of(out@));
        }
        return;
    }
    let ghost o = out@;
    let mut i: usize = 0;
    while i < out.len() && compare_names(&out[i], &s) < 0
        invariant
            i <= out@.len(),
            out@ == o,
            i > 0 ==> lex_lt(name_key(o[i - 1]@), name_key(s@)),
        decreases out@.len() - i,
    {
        i = i + 1;
    }
    if i < out.len() {
        let c = compare_names(&out[i], &s);
        if c == 0 {
            proof {
                lemma_key_injective(o[i as int]@, s@);
                assert(false);
            }
        }
        assert(lex_lt(name_key(s@), name_key(o[i as int]@)));
    }
    out.insert(i, s);
    proof {
        let n = out@;
        assert(n == o.insert(i as int, s));
        assert forall|k: int| 0 <= k && k + 1 < n.len() implies lex_lt(name_key((#[trigger] n[k])@), name_key(n[k + 1]@)) by {
            if k + 1 < i {
                assert(n[k] == o[k] && n[k + 1] == o[k + 1]);
            } else if k + 1 == i {
                assert(n[k] == o[k] && n[k + 1] == s);
            } else if k == i {
                assert(n[k] == s && n[k + 1] == o[k]);
            } else {
                assert(n[k] == o[k - 1] && n[k + 1] == o[k]);
            }
        }
        assert forall|a: int, b: int| 0 <= a < n.len() && 0 <= b < n.len() && a != b implies (#[trigger] n[a])@ != (#[trigger] n[b])@ by {
            let a0 = if a < i { a } else { a - 1 };
            let b0 = if b < i { b } else { b - 1 };
            if a != i as int && b != i as int {
                assert(n[a] == o[a0] && n[b] == o[b0]);
            } else if a == i as int {
                assert(n[b] == o[b0]);
            } else {
                assert(n[a] == o[a0]);
            }
        }
        assert forall|x: Seq<char>| #[trigger] names_of(n).contains(x) == names_of(o).insert(s@).contains(x) by {
            if names_of(n).contains(x) {
                let a = choose|a: int| 0 <= a < n.len() && (#[trigger] n[a])@ == x;
                if a < i {
                    assert(n[a] == o[a]);
                } else if a > i {
                    assert(n[a] == o[a - 1]);
                }
            }
            if names_of(o).contains(x) {
                let a = choose|a: int| 0 <= a < o.len() && (#[trigger] o[a])@ == x;
                if a < i {
                    assert(n[a] == o[a]);
                } else {
                    assert(n[a + 1] == o[a]);
                }
            }
            if x == s@ {
                assert(n[i as int]@ == x);
            }
        }
        assert(names_of(n) =~= names_of(o).insert(s@));
    }
}

/// The names of `v`, sorted by their bytes, each once.
fn sort_names(v: &Vec<String>) -> (r: Vec<String>)
    ensures
        ascending(r@),
        strings_distinct(r@),
        names_of(r@) == names_of(v@),
{
    let mut out: Vec<String> = Vec::new();
    let mut i: usize = 0;
    proof {
        assert(names_of(out@) =~= names_of(v@.subrange(0, 0)));
    }
    while i < v.len()
        invariant
            i <= v@.len(),
            ascending(out@),
            strings_distinct(out@),
            names_of(out@) == names_of(v@.subrange(0, i as int)),
        decreases v@.len() - i,
    {
        insert_sorted(&mut out, v[i].clone());
        proof {
            assert(names_of(v@.subrange(0, i + 1)) =~= names_of(v@.subrange(0, i as int)).insert(v@[i as int]@)) by {
                assert forall|x: Seq<char>| #[trigger] names_of(v@.subrange(0, i + 1)).contains(x)
                    == names_of(v@.subrange(0, i as int)).insert(v@[i as int]@).contains(x) by {
                    let sub1 = v@.subrange(0, i + 1);
                    let sub0 = v@.subrange(0, i as int);
                    if names_of(sub1).contains(x) {
                        let a = choose|a: int| 0 <= a < sub1.len() && (#[trigger] sub1[a])@ == x;
                        if a < i {
                            assert(sub0[a] == sub1[a]);
                        }
                    }
                    if names_of(sub0).contains(x) {
                        let a = choose|a: int| 0 <= a < sub0.len() && (#[trigger] sub0[a])@ == x;
                        assert(sub1[a] == sub0[a]);
                    }
                    if x == v@[i as int]@ {
                        assert(sub1[i as int]@ == x);
                    }
                }
            }
        }
        i = i + 1;
    }
    proof {
        assert(v@.subrange(0, v@.len() as int) =~= v@);
    }
    out
}

fn clone_strings(v: &Vec<String>) -> (r: Vec<String>)
    ensures
        r@.len() == v@.len(),
        forall|i: int| 0 <= i < v@.len() ==> (#[trigger] r@[i])@ == v@[i]@,
{
    let mut out: Vec<String> = Vec::new();
    let mut i: usize = 0;
    while i < v.len()
        invariant
            i <= v@.len(),
            out@.len() == i,
            forall|j: int| 0 <= j < i ==> (#[trigger] out@[j])@ == v@[j]@,
        decreases v@.len() - i,
    {
        out.push(v[i].clone());
        i = i + 1;
    }
    out
}

/// Appends each name not yet listed, with its identifier.
fn add_texture_names(names: &mut Vec<String>, ids: &mut Vec<TextureID>, new_names: &Vec<String>)
    requires
        strings_distinct(old(names)@),
        old(ids)@.len() == old(names)@.len(),
        forall|a: int| 0 <= a < old(ids)@.len() ==> (#[trigger] old(ids)@[a]).0 == texture_hash(old(names)@[a]@),
    ensures
        strings_distinct(final(names)@),
        final(ids)@.len() == final(names)@.len(),
        forall|a: int| 0 <= a < final(ids)@.len() ==> (#[trigger] final(ids)@[a]).0 == texture_hash(final(names)@[a]@),
{
    let mut i: usize = 0;
    while i < new_names.len()
        invariant
            i <= new_names@.len(),
            strings_distinct(names@),
            ids@.len() == names@.len(),
            forall|a: int| 0 <= a < ids@.len() ==> (#[trigger] ids@[a]).0 == texture_hash(names@[a]@),
        decreases new_names@.len() - i,
    {
        let mut found = false;
        let mut j: usize = 0;
        while j < names.len() && !found
            invariant
                j <= names@.len(),
                i < new_names@.len(),
                strings_distinct(names@),
                ids@.len() == names@.len(),
                forall|a: int| 0 <= a < ids@.len() ==> (#[trigger] ids@[a]).0 == texture_hash(names@[a]@),
                !found ==> forall|b: int| 0 <= b < j ==> (#[trigger] names@[b])@ != new_names@[i as int]@,
            decreases names@.len() - j + (if found { 0int } else { 1int }),
        {
            if names[j] == new_names[i] {
                found = true;
            } else {
                j = j + 1;
            }
        }
        if !found {
            assert(forall|b: int| 0 <= b < names@.len() ==> (#[trigger] names@[b])@ != new_names@[i as int]@);
            let ghost before = names@;
            let ghost before_ids = ids@;
            names.push(new_names[i].clone());
            ids.push(TextureID::from_name(new_names[i].as_str()));
            proof {
                assert forall|a: int, b: int| 0 <= a < names@.len() && 0 <= b < names@.len() && a != b
                    implies (#[trigger] names@[a])@ != (#[trigger] names@[b])@ by {
                    if a < before.len() && b < before.len() {
                        assert(names@[a] == before[a] && names@[b] == before[b]);
                    } else if a < before.len() {
                        assert(names@[a] == before[a]);
                    } else if b < before.len() {
                        assert(names@[b] == before[b]);
                    }
                }
                assert forall|a: int| 0 <= a < ids@.len() implies (#[trigger] ids@[a]).0 == texture_hash(names@[a]@) by {
                    if a < before_ids.len() {
                        assert(ids@[a] == before_ids[a] && names@[a] == before[a]);
                    }
                }
            }
        }
        i = i + 1;
    }
}


impl Block {
    /// The registered block `block_name`, with `light_source` replacing the template's
    /// light when both exist, and the given sunlight flag.
    pub fn new(block_name: &str, block_manager: &BlockManager, light_source: Option<LightSource>, sunlit: bool) -> (r: Block)
        requires
            block_manager.wf(),
            block_manager.has(block_name@),
        ensures
            exists|i: int| 0 <= i < block_manager.entry_names().len() && (#[trigger] block_manager.entry_names()[i])@ == block_name@
                && r == (Block {
                    light_source: if block_manager.entry_blocks()[i].light_source is Some && light_source is Some {
                        light_source
                    } else {
                        block_manager.entry_blocks()[i].light_source
                    },
                    sunlit,
                    ..block_manager.entry_blocks()[i]
                }),
    {
        let mut block = *block_manager.get(block_name).unwrap();
        if block.light_source.is_some() && light_source.is_some() {
            block.light_source = light_source;
        }
        block.sunlit = sunlit;
        block
    }

    /// The registered block `block_name`, sunlit exactly when it is transparent.
    pub fn new_with_default(block_name: &str, block_manager: &BlockManager) -> (r: Block)
        requires
            block_manager.wf(),
            block_manager.has(block_name@),
        ensures
            exists|i: int| 0 <= i < block_manager.entry_names().len() && (#[trigger] block_manager.entry_names()[i])@ == block_name@
                && r == (Block { sunlit: block_manager.entry_blocks()[i].is_transparent, ..block_manager.entry_blocks()[i] }),
    {
        let mut block = *block_manager.get(block_name).unwrap();
        block.sunlit = block.is_transparent;
        block
    }
}

} // verus!
