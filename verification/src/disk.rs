//! The cache directory as a whole: what storing and clearing make of it, and
//! what is seen there afterwards.

use vstd::prelude::*;

use crate::shard::{law_shard_files_are_distinct, shard_file};
use crate::sums::{lemma_sum_along, lemma_sum_image, lemma_sum_remove, sum_along, sum_over};
use crate::text::{
    decimal, is_digit, lemma_next_index, lemma_next_index_is, lemma_padded_decimal_reads_back,
    pieces, zero_padded,
};
use crate::weight_loader::{
    cache_walk, config_file_of, listing_walk, model_dir_of, model_is_cached, model_is_known,
    shard_file_of, sub_walk, tokenizer_file_of, weights_dir_of, Walk,
};
use crate::weight_loader::{CacheEntry, Listing, SubEntry};

verus! {

/// The place to which joining these names leads. A name with slashes leads
/// through several directories. Names are taken as they are spelled.
pub open spec fn place_of(path: Seq<Seq<char>>) -> Seq<Seq<char>>
    decreases path.len(),
{
    if path.len() == 0 {
        seq![]
    } else {
        place_of(path.drop_last()) + pieces(path.last(), '/')
    }
}

/// What lies below the cache directory: the directories, and the files with
/// their contents. A place is given by the names of the directories that lead
/// to it and its own name.
#[verifier::ext_equal]
pub struct Disk {
    pub dirs: Set<Seq<Seq<char>>>,
    pub files: Map<Seq<Seq<char>>, Seq<u8>>,
}

impl Disk {
    /// Whether there is anything at a place.
    pub open spec fn has(self, place: Seq<Seq<char>>) -> bool {
        self.dirs.contains(place) || self.files.contains_key(place)
    }

    /// What holds of every disk: whatever is there lies in a directory, and
    /// nothing is both a directory and a file.
    pub open spec fn wf(self) -> bool {
        &&& forall|p: Seq<Seq<char>>| #[trigger] self.has(p) ==> p.len() > 0
        &&& forall|p: Seq<Seq<char>>| #[trigger]
            self.has(p) && p.len() > 1 ==> self.dirs.contains(p.drop_last())
        &&& forall|p: Seq<Seq<char>>| #[trigger]
            self.dirs.contains(p) ==> !self.files.contains_key(p)
    }

    /// Whether a file can be stored: no file stands where a directory has to
    /// be, and no directory where the file has to be.
    pub open spec fn takes(self, dir: Seq<Seq<char>>, file: Seq<Seq<char>>) -> bool {
        &&& forall|p: Seq<Seq<char>>|
            0 < p.len() && #[trigger] p.is_prefix_of(dir) ==> !self.files.contains_key(p)
        &&& !self.dirs.contains(file)
    }

    /// The disk after a directory was made, with all its parents, and a file
    /// was written.
    pub open spec fn stored(
        self,
        dir: Seq<Seq<char>>,
        file: Seq<Seq<char>>,
        data: Seq<u8>,
    ) -> Disk {
        Disk {
            dirs: Set::new(
                |p: Seq<Seq<char>>| self.dirs.contains(p) || (0 < p.len() && p.is_prefix_of(dir)),
            ),
            files: self.files.insert(file, data),
        }
    }

    /// The disk after a directory was removed, with all that is in it.
    pub open spec fn without(self, dir: Seq<Seq<char>>) -> Disk {
        Disk {
            dirs: self.dirs.filter(|p: Seq<Seq<char>>| !dir.is_prefix_of(p)),
            files: self.files.filter_keys(|p: Seq<Seq<char>>| !dir.is_prefix_of(p)),
        }
    }

    /// What a full look at the disk finds: every path that leads to something.
    pub open spec fn shown(self) -> Set<Seq<Seq<char>>> {
        Set::new(|path: Seq<Seq<char>>| self.has(place_of(path)))
    }
}

/// An asset that comes in for a model.
pub enum Load {
    /// The configuration
    Config(Seq<u8>),
    /// The tokenizer
    Tokenizer(Seq<u8>),
    /// The weight shard of a number
    Weights(u32, Seq<u8>),
}

/// The directory of an asset.
pub open spec fn load_dir(model: Seq<char>, load: Load) -> Seq<Seq<char>> {
    match load {
        Load::Config(_) => place_of(model_dir_of(model)),
        Load::Tokenizer(_) => place_of(model_dir_of(model)),
        Load::Weights(_, _) => place_of(weights_dir_of(model)),
    }
}

/// The file of an asset.
pub open spec fn load_file(model: Seq<char>, load: Load) -> Seq<Seq<char>> {
    match load {
        Load::Config(_) => place_of(config_file_of(model)),
        Load::Tokenizer(_) => place_of(tokenizer_file_of(model)),
        Load::Weights(n, _) => place_of(shard_file_of(model, n)),
    }
}

/// The content of an asset.
pub open spec fn load_data(load: Load) -> Seq<u8> {
    match load {
        Load::Config(data) => data,
        Load::Tokenizer(data) => data,
        Load::Weights(_, data) => data,
    }
}

/// The disk after assets of a model were stored, one after the other.
pub open spec fn loaded(disk: Disk, model: Seq<char>, loads: Seq<Load>) -> Disk
    decreases loads.len(),
{
    if loads.len() == 0 {
        disk
    } else {
        let load = loads.last();
        loaded(disk, model, loads.drop_last()).stored(
            load_dir(model, load),
            load_file(model, load),
            load_data(load),
        )
    }
}

/// Whether every one of the assets can be stored.
pub open spec fn loads_succeed(disk: Disk, model: Seq<char>, loads: Seq<Load>) -> bool
    decreases loads.len(),
{
    loads.len() > 0 ==> {
        &&& loads_succeed(disk, model, loads.drop_last())
        &&& loaded(disk, model, loads.drop_last()).takes(
            load_dir(model, loads.last()),
            load_file(model, loads.last()),
        )
    }
}

/// The assets of a model.
#[verifier::ext_equal]
pub struct Assets {
    pub config: Option<Seq<u8>>,
    pub tokenizer: Option<Seq<u8>>,
    pub shards: Map<u32, Seq<u8>>,
}

/// What was given last of each asset.
pub open spec fn last_given(loads: Seq<Load>) -> Assets
    decreases loads.len(),
{
    if loads.len() == 0 {
        Assets { config: None, tokenizer: None, shards: Map::empty() }
    } else {
        let before = last_given(loads.drop_last());
        match loads.last() {
            Load::Config(data) => Assets { config: Some(data), ..before },
            Load::Tokenizer(data) => Assets { tokenizer: Some(data), ..before },
            Load::Weights(n, data) => Assets { shards: before.shards.insert(n, data), ..before },
        }
    }
}

/// A name without a slash is one name.
proof fn lemma_one_name(name: Seq<char>)
    requires
        forall|i: int| 0 <= i < name.len() ==> name[i] != '/',
    ensures
        pieces(name, '/') == seq![name],
{
    lemma_next_index_is(name, '/', 0, name.len() as int);
    assert(name.subrange(0, name.len() as int) =~= name);
}

/// The file name of a shard has no slash.
proof fn lemma_shard_name(n: u32)
    ensures
        pieces(shard_file(n), '/') == seq![shard_file(n)],
{
    reveal_strlit("shard-");
    reveal_strlit(".safetensors");
    let d = zero_padded(decimal(n as nat), 3);
    lemma_padded_decimal_reads_back(n, 3);
    let name = shard_file(n);
    assert forall|i: int| 0 <= i < name.len() implies name[i] != '/' by {
        if 6 <= i < 6 + d.len() {
            assert(name[i] == d[i - 6]);
            assert(is_digit(d[i - 6]));
        } else if i >= 6 + d.len() {
            assert(name[i] == ".safetensors"@[i - 6 - d.len()]);
        } else {
            assert(name[i] == "shard-"@[i]);
        }
    }
    lemma_one_name(name);
}

/// The places of a model, from that of its directory.
proof fn lemma_places(model: Seq<char>)
    ensures
        ({
            let top = place_of(model_dir_of(model));
            &&& top.len() > 0
            &&& place_of(config_file_of(model)) == top.push("config.json"@)
            &&& place_of(tokenizer_file_of(model)) == top.push("tokenizer.json"@)
            &&& place_of(weights_dir_of(model)) == top.push("weights"@)
            &&& forall|n: u32| #[trigger]
                place_of(shard_file_of(model, n)) == top.push("weights"@).push(shard_file(n))
        }),
        "config.json"@ != "tokenizer.json"@,
        "config.json"@ != "weights"@,
        "tokenizer.json"@ != "weights"@,
{
    reveal_strlit("config.json");
    reveal_strlit("tokenizer.json");
    reveal_strlit("weights");
    lemma_one_name("config.json"@);
    lemma_one_name("tokenizer.json"@);
    lemma_one_name("weights"@);
    assert("config.json"@.len() == 11 && "tokenizer.json"@.len() == 14 && "weights"@.len() == 7);
    lemma_next_index(model, '/', 0);
    let top = place_of(model_dir_of(model));
    let root = Seq::<Seq<char>>::empty();
    assert(model_dir_of(model).drop_last() =~= root);
    assert(place_of(root) =~= root);
    assert(pieces(model, '/').len() > 0);
    assert(config_file_of(model).drop_last() =~= model_dir_of(model));
    assert(tokenizer_file_of(model).drop_last() =~= model_dir_of(model));
    assert(weights_dir_of(model).drop_last() =~= model_dir_of(model));
    assert(place_of(config_file_of(model)) =~= top.push("config.json"@));
    assert(place_of(tokenizer_file_of(model)) =~= top.push("tokenizer.json"@));
    assert(place_of(weights_dir_of(model)) =~= top.push("weights"@));
    assert forall|n: u32| #[trigger]
        place_of(shard_file_of(model, n)) == top.push("weights"@).push(shard_file(n)) by {
        lemma_shard_name(n);
        assert(shard_file_of(model, n).drop_last() =~= weights_dir_of(model));
        assert(place_of(shard_file_of(model, n)) =~= top.push("weights"@).push(shard_file(n)));
    }
}

/// Storing an asset leaves a disk, and the directory of the asset is there.
proof fn lemma_stored(disk: Disk, dir: Seq<Seq<char>>, name: Seq<char>, data: Seq<u8>)
    requires
        disk.wf(),
        dir.len() > 0,
        disk.takes(dir, dir.push(name)),
    ensures
        disk.stored(dir, dir.push(name), data).wf(),
        disk.stored(dir, dir.push(name), data).dirs.contains(dir),
{
    let file = dir.push(name);
    let after = disk.stored(dir, file, data);
    assert(dir.is_prefix_of(dir));
    assert forall|p: Seq<Seq<char>>| #[trigger] after.has(p) && p.len() > 1 implies
        after.dirs.contains(p.drop_last()) by {
        if disk.has(p) {
        } else if p == file {
            assert(p.drop_last() =~= dir);
        } else {
            assert(p.is_prefix_of(dir));
            assert(p.drop_last().is_prefix_of(dir));
        }
    }
    assert forall|p: Seq<Seq<char>>| #[trigger] after.has(p) implies p.len() > 0 by {
        if disk.has(p) {
        }
    }
    assert forall|p: Seq<Seq<char>>| #[trigger]
        after.dirs.contains(p) implies !after.files.contains_key(p) by {
        if p.is_prefix_of(dir) && 0 < p.len() {
        } else {
            assert(disk.dirs.contains(p));
        }
    }
}

/// The directory and the file of an asset.
proof fn lemma_load_place(model: Seq<char>, load: Load)
    ensures
        load_dir(model, load).len() > 0,
        exists|name: Seq<char>|
            load_file(model, load) == #[trigger] load_dir(model, load).push(name),
{
    lemma_places(model);
    let dir = load_dir(model, load);
    match load {
        Load::Config(_) => {
            assert(load_file(model, load) == dir.push("config.json"@));
        },
        Load::Tokenizer(_) => {
            assert(load_file(model, load) == dir.push("tokenizer.json"@));
        },
        Load::Weights(n, _) => {
            assert(load_file(model, load) == dir.push(shard_file(n)));
        },
    }
}

/// Storing assets leaves a disk.
proof fn lemma_loaded_wf(disk: Disk, model: Seq<char>, loads: Seq<Load>)
    requires
        disk.wf(),
        loads_succeed(disk, model, loads),
    ensures
        loaded(disk, model, loads).wf(),
    decreases loads.len(),
{
    if loads.len() > 0 {
        let load = loads.last();
        lemma_loaded_wf(disk, model, loads.drop_last());
        lemma_load_place(model, load);
        let name = choose|name: Seq<char>|
            load_file(model, load) == #[trigger] load_dir(model, load).push(name);
        lemma_stored(
            loaded(disk, model, loads.drop_last()),
            load_dir(model, load),
            name,
            load_data(load),
        );
    }
}

/// The files of a model after assets were stored: each holds what was given
/// last for it, or what it held before where nothing was given.
proof fn lemma_loaded_files(disk: Disk, model: Seq<char>, loads: Seq<Load>)
    ensures
        ({
            let after = loaded(disk, model, loads);
            let given = last_given(loads);
            let config = place_of(config_file_of(model));
            let tokenizer = place_of(tokenizer_file_of(model));
            &&& match given.config {
                Some(data) => after.files.contains_key(config) && after.files[config] == data,
                None => after.files.contains_key(config) == disk.files.contains_key(config),
            }
            &&& match given.tokenizer {
                Some(data) => after.files.contains_key(tokenizer) && after.files[tokenizer] == data,
                None => after.files.contains_key(tokenizer) == disk.files.contains_key(tokenizer),
            }
            &&& forall|n: u32|
                given.shards.contains_key(n) ==> after.files.contains_key(
                    #[trigger] place_of(shard_file_of(model, n)),
                ) && after.files[place_of(shard_file_of(model, n))] == given.shards[n]
            &&& forall|n: u32|
                !given.shards.contains_key(n) ==> after.files.contains_key(
                    #[trigger] place_of(shard_file_of(model, n)),
                ) == disk.files.contains_key(place_of(shard_file_of(model, n)))
            &&& given.shards.dom().finite()
        }),
    decreases loads.len(),
{
    if loads.len() > 0 {
        lemma_loaded_files(disk, model, loads.drop_last());
        lemma_places(model);
        let top = place_of(model_dir_of(model));
        let config = place_of(config_file_of(model));
        let tokenizer = place_of(tokenizer_file_of(model));
        assert(config.last() != tokenizer.last());
        assert forall|n: u32| #[trigger] place_of(shard_file_of(model, n)) != config && place_of(
            shard_file_of(model, n),
        ) != tokenizer by {
            assert(place_of(shard_file_of(model, n)).len() == top.len() + 2);
        }
        if let Load::Weights(m, _) = loads.last() {
            assert forall|n: u32| n != m implies #[trigger] place_of(shard_file_of(model, n))
                != place_of(shard_file_of(model, m)) by {
                law_shard_files_are_distinct(n, m);
                assert(place_of(shard_file_of(model, n)).last() == shard_file(n));
                assert(place_of(shard_file_of(model, m)).last() == shard_file(m));
            }
        }
    }
}

/// What was stored is what is there: after assets of a model were stored, in
/// whatever order and however often, each file holds what was given last for
/// it, whatever was there before; and once the configuration, the tokenizer
/// and the first shards are among them, the model counts as cached with that
/// many shards.
pub proof fn law_stored_assets_are_there(
    disk: Disk,
    model: Seq<char>,
    loads: Seq<Load>,
    shards: u32,
)
    ensures
        ({
            let after = loaded(disk, model, loads);
            let given = last_given(loads);
            let config = place_of(config_file_of(model));
            let tokenizer = place_of(tokenizer_file_of(model));
            &&& given.config is Some ==> after.files.contains_key(config) && after.files[config]
                == given.config->0
            &&& given.tokenizer is Some ==> after.files.contains_key(tokenizer)
                && after.files[tokenizer] == given.tokenizer->0
            &&& forall|n: u32|
                given.shards.contains_key(n) ==> after.files.contains_key(
                    #[trigger] place_of(shard_file_of(model, n)),
                ) && after.files[place_of(shard_file_of(model, n))] == given.shards[n]
            &&& given.config is Some && given.tokenizer is Some && (forall|n: u32|
                n < shards ==> #[trigger] given.shards.contains_key(n)) ==> model_is_cached(
                after.shown(),
                model,
                shards,
            )
        }),
{
    lemma_loaded_files(disk, model, loads);
    let after = loaded(disk, model, loads);
    let given = last_given(loads);
    if forall|n: u32| n < shards ==> #[trigger] given.shards.contains_key(n) {
        assert forall|n: u32| n < shards implies after.shown().contains(
            #[trigger] shard_file_of(model, n),
        ) by {
            assert(given.shards.contains_key(n));
            assert(after.files.contains_key(place_of(shard_file_of(model, n))));
        }
    }
}

/// A model is known exactly where its configuration is there. So a model that
/// is cached, with whatever number of shards, is known.
pub proof fn law_known_where_configured(disk: Disk, model: Seq<char>, shards: u32)
    requires
        disk.wf(),
    ensures
        model_is_known(disk.shown(), model) <==> disk.shown().contains(config_file_of(model)),
        model_is_cached(disk.shown(), model, shards) ==> model_is_known(disk.shown(), model),
{
    lemma_places(model);
    let top = place_of(model_dir_of(model));
    let config = place_of(config_file_of(model));
    assert(config.drop_last() =~= top);
    if disk.has(config) {
        assert(disk.dirs.contains(top));
    }
}

/// Storing the configuration of a model makes it known; storing its tokenizer
/// or one of its shards changes nothing in that.
pub proof fn law_configuration_makes_known(disk: Disk, model: Seq<char>, load: Load)
    requires
        disk.wf(),
        loads_succeed(disk, model, seq![load]),
    ensures
        model_is_known(loaded(disk, model, seq![load]).shown(), model) == (load is Config
            || model_is_known(disk.shown(), model)),
{
    let loads = seq![load];
    let after = loaded(disk, model, loads);
    lemma_loaded_wf(disk, model, loads);
    law_known_where_configured(disk, model, 0);
    law_known_where_configured(after, model, 0);
    lemma_places(model);
    reveal_with_fuel(loaded, 2);
    assert(loads.drop_last() =~= seq![]);
    let top = place_of(model_dir_of(model));
    let config = place_of(config_file_of(model));
    assert(config.last() != place_of(tokenizer_file_of(model)).last());
    assert(config.len() == top.len() + 1);
    assert(!config.is_prefix_of(top));
    let weights = place_of(weights_dir_of(model));
    if config.is_prefix_of(weights) {
        assert(config =~= weights);
        assert(config.last() == weights.last());
    }
    if let Load::Weights(n, _) = load {
        assert(load_file(model, load).len() == top.len() + 2);
    }
}

/// Where there is no directory, nothing lies below it.
proof fn lemma_nothing_below(disk: Disk, dir: Seq<Seq<char>>, p: Seq<Seq<char>>)
    requires
        disk.wf(),
        dir.len() > 0,
        !disk.dirs.contains(dir),
        dir.is_prefix_of(p),
        p != dir,
    ensures
        !disk.has(p),
    decreases p.len(),
{
    if disk.has(p) {
        if p.len() == dir.len() {
            assert(p =~= dir);
        }
        let up = p.drop_last();
        assert(dir.is_prefix_of(up));
        if up != dir {
            lemma_nothing_below(disk, dir, up);
            assert(disk.has(up));
        }
    }
}

/// The disk after the cache of a model was cleared: its directory is removed,
/// if it exists.
pub open spec fn cleared(disk: Disk, model: Seq<char>) -> Disk {
    if disk.has(place_of(model_dir_of(model))) {
        disk.without(place_of(model_dir_of(model)))
    } else {
        disk
    }
}

/// A cleared model is gone: nothing is left in its directory, it is neither
/// known nor cached, it has no weights directory, and the size of its cache is
/// zero. Nothing outside of its directory changes; and where there was no such
/// directory, or it was cleared before, nothing changes at all. (A file in the
/// place of the directory cannot be removed as one.)
pub proof fn law_cleared_model_is_gone(
    disk: Disk,
    model: Seq<char>,
    shards: u32,
    listing: Listing,
    place: Seq<Seq<char>>,
)
    requires
        disk.wf(),
        !disk.files.contains_key(place_of(model_dir_of(model))),
    ensures
        ({
            let after = cleared(disk, model);
            let top = place_of(model_dir_of(model));
            &&& after.wf()
            &&& !model_is_known(after.shown(), model)
            &&& !model_is_cached(after.shown(), model, shards)
            &&& !after.shown().contains(model_dir_of(model))
            &&& !after.shown().contains(weights_dir_of(model))
            &&& lists(after, top, listing) ==> listing_walk(listing) == (Walk {
                size: 0,
                failure: None,
            })
            &&& if top.is_prefix_of(place) {
                !after.has(place)
            } else {
                &&& after.dirs.contains(place) == disk.dirs.contains(place)
                &&& after.files.contains_key(place) == disk.files.contains_key(place)
                &&& after.files.contains_key(place) ==> after.files[place] == disk.files[place]
            }
            &&& !disk.has(top) ==> after == disk
            &&& cleared(after, model) == after
        }),
{
    lemma_places(model);
    let top = place_of(model_dir_of(model));
    let after = cleared(disk, model);
    assert(top.is_prefix_of(top));
    assert(top.is_prefix_of(place_of(config_file_of(model))));
    assert(top.is_prefix_of(place_of(weights_dir_of(model))));
    assert forall|p: Seq<Seq<char>>| top.is_prefix_of(p) implies !#[trigger] after.has(p) by {
        if !disk.has(top) && p != top {
            lemma_nothing_below(disk, top, p);
        }
    }
    assert forall|p: Seq<Seq<char>>| #[trigger] after.has(p) && p.len() > 1 implies
        after.dirs.contains(p.drop_last()) by {
        assert(disk.has(p));
        let up = p.drop_last();
        if top.is_prefix_of(up) {
            assert(top.is_prefix_of(p));
        }
    }
    assert forall|p: Seq<Seq<char>>| #[trigger] after.has(p) implies p.len() > 0 by {
        assert(disk.has(p));
    }
    assert(!after.has(top));
    assert(!after.has(place_of(config_file_of(model))));
    assert(!after.has(place_of(weights_dir_of(model))));
}

/// Whether these are the entries of a directory inside a model's directory,
/// read without a failure, under these names.
pub open spec fn inner_listing(
    disk: Disk,
    dir: Seq<Seq<char>>,
    names: Seq<Seq<char>>,
    entries: Seq<Result<SubEntry, String>>,
) -> bool {
    &&& names.no_duplicates()
    &&& names.len() == entries.len()
    &&& forall|name: Seq<char>| #[trigger] names.contains(name) <==> disk.has(dir.push(name))
    &&& forall|i: int|
        0 <= i < names.len() ==> match #[trigger] entries[i] {
            Ok(SubEntry::File(Ok(n))) => disk.files.contains_key(dir.push(names[i])) && n
                == disk.files[dir.push(names[i])].len(),
            Ok(SubEntry::Other) => disk.dirs.contains(dir.push(names[i])),
            _ => false,
        }
}

/// Whether these are the entries of a model's directory, read without a
/// failure, under these names.
pub open spec fn outer_listing(
    disk: Disk,
    dir: Seq<Seq<char>>,
    names: Seq<Seq<char>>,
    entries: Seq<Result<CacheEntry, String>>,
) -> bool {
    &&& names.no_duplicates()
    &&& names.len() == entries.len()
    &&& forall|name: Seq<char>| #[trigger] names.contains(name) <==> disk.has(dir.push(name))
    &&& forall|i: int|
        0 <= i < names.len() ==> match #[trigger] entries[i] {
            Ok(CacheEntry::File(Ok(n))) => disk.files.contains_key(dir.push(names[i])) && n
                == disk.files[dir.push(names[i])].len(),
            Ok(CacheEntry::Dir(Ok(inner))) => disk.dirs.contains(dir.push(names[i])) && exists|
                inner_names: Seq<Seq<char>>,
            | #[trigger]
                inner_listing(disk, dir.push(names[i]), inner_names, inner@),
            _ => false,
        }
}

/// Whether this is a listing of a directory that was read without a failure:
/// every entry once, in whatever order.
pub open spec fn lists(disk: Disk, dir: Seq<Seq<char>>, listing: Listing) -> bool {
    match listing {
        None => !disk.has(dir),
        Some(Err(_)) => false,
        Some(Ok(entries)) => disk.dirs.contains(dir) && exists|names: Seq<Seq<char>>| #[trigger]
            outer_listing(disk, dir, names, entries@),
    }
}

/// How many bytes the assets of a model are, all together.
pub open spec fn total_size(assets: Assets) -> nat {
    size_of(assets.config) + size_of(assets.tokenizer) + sum_over(
        assets.shards.dom(),
        |n: u32| assets.shards[n].len(),
    )
}

/// How many bytes an asset is that may be missing.
pub open spec fn size_of(asset: Option<Seq<u8>>) -> nat {
    match asset {
        Some(data) => data.len(),
        None => 0,
    }
}

/// What lies in the directory of a model that had none before its assets were
/// stored: their files, and the directories that these need.
proof fn lemma_only_assets(disk: Disk, model: Seq<char>, loads: Seq<Load>)
    requires
        disk.wf(),
        !disk.has(place_of(model_dir_of(model))),
    ensures
        ({
            let after = loaded(disk, model, loads);
            let given = last_given(loads);
            let top = place_of(model_dir_of(model));
            &&& forall|p: Seq<Seq<char>>|
                top.is_prefix_of(p) && #[trigger] after.files.contains_key(p) ==> {
                    ||| p == place_of(config_file_of(model))
                    ||| p == place_of(tokenizer_file_of(model))
                    ||| exists|n: u32|
                        given.shards.contains_key(n) && p == #[trigger] place_of(
                            shard_file_of(model, n),
                        )
                }
            &&& forall|p: Seq<Seq<char>>|
                top.is_prefix_of(p) && #[trigger] after.dirs.contains(p) ==> {
                    ||| p == top
                    ||| p == place_of(weights_dir_of(model)) && exists|n: u32| #[trigger]
                        given.shards.contains_key(n)
                }
            &&& loads.len() > 0 ==> after.dirs.contains(top)
            &&& loads.len() == 0 ==> !after.has(top)
            &&& (exists|n: u32| #[trigger] given.shards.contains_key(n)) ==> after.dirs.contains(
                place_of(weights_dir_of(model)),
            )
        }),
    decreases loads.len(),
{
    lemma_places(model);
    let top = place_of(model_dir_of(model));
    let weights = place_of(weights_dir_of(model));
    let given = last_given(loads);
    let after = loaded(disk, model, loads);
    if loads.len() == 0 {
        assert forall|p: Seq<Seq<char>>| top.is_prefix_of(p) implies !after.files.contains_key(p)
            && !after.dirs.contains(p) by {
            if p != top {
                lemma_nothing_below(disk, top, p);
            }
            assert(!disk.has(p));
        }
    } else {
        let front = loads.drop_last();
        let load = loads.last();
        let before = loaded(disk, model, front);
        let earlier = last_given(front);
        lemma_only_assets(disk, model, front);
        assert(top.is_prefix_of(top));
        assert(top.is_prefix_of(weights));
        assert(weights.is_prefix_of(weights));
        assert forall|n: u32| earlier.shards.contains_key(n) implies #[trigger]
            given.shards.contains_key(n) by {}
        if let Load::Weights(m, _) = load {
            assert(given.shards.contains_key(m));
        }
        assert forall|p: Seq<Seq<char>>|
            top.is_prefix_of(p) && #[trigger] after.files.contains_key(p) implies {
            ||| p == place_of(config_file_of(model))
            ||| p == place_of(tokenizer_file_of(model))
            ||| exists|n: u32|
                given.shards.contains_key(n) && p == #[trigger] place_of(shard_file_of(model, n))
        } by {
            if before.files.contains_key(p) && p != place_of(config_file_of(model)) && p
                != place_of(tokenizer_file_of(model)) {
                let n = choose|n: u32|
                    earlier.shards.contains_key(n) && p == #[trigger] place_of(
                        shard_file_of(model, n),
                    );
                assert(given.shards.contains_key(n));
            }
        }
        assert forall|p: Seq<Seq<char>>|
            top.is_prefix_of(p) && #[trigger] after.dirs.contains(p) implies {
            ||| p == top
            ||| p == weights && exists|n: u32| #[trigger] given.shards.contains_key(n)
        } by {
            if before.dirs.contains(p) {
                if p != top {
                    let n = choose|n: u32| #[trigger] earlier.shards.contains_key(n);
                    assert(given.shards.contains_key(n));
                }
            } else {
                assert(p.is_prefix_of(load_dir(model, load)));
                if p.len() == top.len() {
                    assert(p =~= top);
                } else {
                    assert(p.len() == weights.len());
                    assert(p =~= weights);
                }
            }
        }
    }
}

/// A walk over the weights of a model adds up its shards.
proof fn lemma_inner_size(
    disk: Disk,
    dir: Seq<Seq<char>>,
    shards: Map<u32, Seq<u8>>,
    names: Seq<Seq<char>>,
    entries: Seq<Result<SubEntry, String>>,
)
    requires
        shards.dom().finite(),
        inner_listing(disk, dir, names, entries),
        forall|name: Seq<char>| !#[trigger] disk.dirs.contains(dir.push(name)),
        forall|n: u32|
            shards.contains_key(n) ==> disk.files.contains_key(
                #[trigger] dir.push(shard_file(n)),
            ) && disk.files[dir.push(shard_file(n))] == shards[n],
        forall|name: Seq<char>| #[trigger]
            disk.files.contains_key(dir.push(name)) ==> exists|n: u32|
                shards.contains_key(n) && name == #[trigger] shard_file(n),
    ensures
        sub_walk(entries) == (Walk {
            size: sum_over(shards.dom(), |n: u32| shards[n].len()),
            failure: None,
        }),
{
    let g = |name: Seq<char>| disk.files[dir.push(name)].len();
    let f = |n: u32| shards[n].len();
    let h = |n: u32| shard_file(n);
    assert forall|i: int| 0 <= i < names.len() implies match #[trigger] entries[i] {
        Ok(SubEntry::File(Ok(n))) => n == g(names[i]),
        _ => false,
    } by {
        assert(!disk.dirs.contains(dir.push(names[i])));
    }
    lemma_inner_walk(entries, names, g);
    lemma_sum_along(names, g);
    let found = names.to_set();
    assert forall|n: u32| #[trigger] shards.dom().contains(n) implies found.contains(h(n)) && g(h(n))
        == f(n) by {
        assert(disk.has(dir.push(shard_file(n))));
        assert(names.contains(shard_file(n)));
    }
    assert forall|name: Seq<char>| #[trigger] found.contains(name) implies exists|n: u32| #[trigger]
        shards.dom().contains(n) && h(n) == name by {
        assert(names.contains(name));
        assert(disk.has(dir.push(name)));
        let n = choose|n: u32| shards.contains_key(n) && name == #[trigger] shard_file(n);
        assert(shards.dom().contains(n));
    }
    assert forall|a: u32, b: u32| #[trigger]
        shards.dom().contains(a) && #[trigger] shards.dom().contains(b) && a != b implies h(a) != h(
        b,
    ) by {
        law_shard_files_are_distinct(a, b);
    }
    lemma_sum_image(shards.dom(), found, h, f, g);
}

/// A walk over files adds up their sizes.
proof fn lemma_inner_walk(
    entries: Seq<Result<SubEntry, String>>,
    names: Seq<Seq<char>>,
    g: spec_fn(Seq<char>) -> nat,
)
    requires
        names.len() == entries.len(),
        forall|i: int|
            0 <= i < names.len() ==> match #[trigger] entries[i] {
                Ok(SubEntry::File(Ok(n))) => n == g(names[i]),
                _ => false,
            },
    ensures
        sub_walk(entries) == (Walk { size: sum_along(names, g), failure: None }),
    decreases entries.len(),
{
    if entries.len() > 0 {
        assert forall|i: int| 0 <= i < names.drop_last().len() implies match #[trigger] entries
            .drop_last()[i] {
            Ok(SubEntry::File(Ok(n))) => n == g(names.drop_last()[i]),
            _ => false,
        } by {
            assert(entries[i] == entries.drop_last()[i]);
        }
        lemma_inner_walk(entries.drop_last(), names.drop_last(), g);
        assert(entries[entries.len() - 1] == entries.last());
    }
}

/// The size that one entry of a model's directory adds.
spec fn entry_size(entry: Result<CacheEntry, String>) -> nat {
    match entry {
        Ok(CacheEntry::File(Ok(n))) => n as nat,
        Ok(CacheEntry::Dir(Ok(inner))) => sub_walk(inner@).size,
        _ => 0,
    }
}

/// Whether one entry of a model's directory is read without a failure.
spec fn entry_is_read(entry: Result<CacheEntry, String>) -> bool {
    match entry {
        Ok(CacheEntry::File(Ok(n))) => true,
        Ok(CacheEntry::Dir(Ok(inner))) => sub_walk(inner@).failure is None,
        _ => false,
    }
}

/// A walk over a model's directory adds up the sizes of its entries.
proof fn lemma_outer_walk(
    entries: Seq<Result<CacheEntry, String>>,
    names: Seq<Seq<char>>,
    g: spec_fn(Seq<char>) -> nat,
)
    requires
        names.len() == entries.len(),
        forall|i: int|
            0 <= i < names.len() ==> entry_is_read(#[trigger] entries[i]) && entry_size(entries[i])
                == g(names[i]),
    ensures
        cache_walk(entries) == (Walk { size: sum_along(names, g), failure: None }),
    decreases entries.len(),
{
    if entries.len() > 0 {
        assert forall|i: int| 0 <= i < names.drop_last().len() implies entry_is_read(
            #[trigger] entries.drop_last()[i],
        ) && entry_size(entries.drop_last()[i]) == g(names.drop_last()[i]) by {
            assert(entries[i] == entries.drop_last()[i]);
        }
        lemma_outer_walk(entries.drop_last(), names.drop_last(), g);
        assert(entries[entries.len() - 1] == entries.last());
    }
}

/// The sum over a set that holds nothing but three given elements.
proof fn lemma_sum_of_three(
    s: Set<Seq<char>>,
    f: spec_fn(Seq<char>) -> nat,
    a: Seq<char>,
    b: Seq<char>,
    c: Seq<char>,
)
    requires
        s.finite(),
        a != b,
        a != c,
        b != c,
        forall|x: Seq<char>| #[trigger] s.contains(x) ==> x == a || x == b || x == c,
    ensures
        sum_over(s, f) == (if s.contains(a) { f(a) } else { 0 }) + (if s.contains(b) { f(b) } else {
            0
        }) + (if s.contains(c) { f(c) } else { 0 }),
{
    let s1 = s.remove(a);
    let s2 = s1.remove(b);
    let s3 = s2.remove(c);
    if s.contains(a) {
        lemma_sum_remove(s, f, a);
    } else {
        assert(s1 =~= s);
    }
    if s1.contains(b) {
        lemma_sum_remove(s1, f, b);
    } else {
        assert(s2 =~= s1);
    }
    if s2.contains(c) {
        lemma_sum_remove(s2, f, c);
    } else {
        assert(s3 =~= s2);
    }
    assert(s3 =~= Set::empty());
}

/// The cache of a model is as large as what was stored: for a model that had
/// no directory, the size of its cache is that of the configuration, of the
/// tokenizer and of the shards, each as it was given last. What is given again
/// replaces and does not add; before anything is given, the size is zero.
pub proof fn law_cache_size_is_what_was_stored(
    disk: Disk,
    model: Seq<char>,
    loads: Seq<Load>,
    listing: Listing,
)
    requires
        disk.wf(),
        !disk.has(place_of(model_dir_of(model))),
        loads_succeed(disk, model, loads),
        lists(loaded(disk, model, loads), place_of(model_dir_of(model)), listing),
    ensures
        listing_walk(listing) == (Walk { size: total_size(last_given(loads)), failure: None }),
        loads.len() == 0 ==> listing is None && total_size(last_given(loads)) == 0,
{
    let after = loaded(disk, model, loads);
    let given = last_given(loads);
    let top = place_of(model_dir_of(model));
    let weights = place_of(weights_dir_of(model));
    let config = place_of(config_file_of(model));
    let tokenizer = place_of(tokenizer_file_of(model));
    lemma_places(model);
    lemma_loaded_wf(disk, model, loads);
    lemma_loaded_files(disk, model, loads);
    lemma_only_assets(disk, model, loads);
    assert(!disk.has(config) && !disk.has(tokenizer)) by {
        assert(top.is_prefix_of(config) && top.is_prefix_of(tokenizer));
        assert(config.len() > top.len() && tokenizer.len() > top.len());
        lemma_nothing_below(disk, top, config);
        lemma_nothing_below(disk, top, tokenizer);
    }
    if listing is None {
        assert(loads.len() == 0);
        assert(given.shards.dom() =~= Set::empty());
    } else {
        let entries = listing->0->Ok_0@;
        let names = choose|names: Seq<Seq<char>>| #[trigger]
            outer_listing(after, top, names, entries);
        let shards_size = sum_over(given.shards.dom(), |n: u32| given.shards[n].len());
        let g = |name: Seq<char>|
            if name == "weights"@ {
                shards_size
            } else {
                after.files[top.push(name)].len()
            };
        assert forall|name: Seq<char>| #[trigger] after.dirs.contains(weights.push(name)) implies
            false by {
            assert(top.is_prefix_of(weights.push(name)));
            assert(weights.push(name).len() == top.len() + 2);
        }
        assert forall|n: u32| given.shards.contains_key(n) implies after.files.contains_key(
            #[trigger] weights.push(shard_file(n)),
        ) && after.files[weights.push(shard_file(n))] == given.shards[n] by {
            assert(weights.push(shard_file(n)) == place_of(shard_file_of(model, n)));
        }
        assert forall|name: Seq<char>| #[trigger]
            after.files.contains_key(weights.push(name)) implies exists|n: u32|
            given.shards.contains_key(n) && name == #[trigger] shard_file(n) by {
            let p = weights.push(name);
            assert(top.is_prefix_of(p));
            assert(p.len() == top.len() + 2);
            let n = choose|n: u32|
                given.shards.contains_key(n) && p == #[trigger] place_of(shard_file_of(model, n));
            assert(p.last() == name);
            assert(place_of(shard_file_of(model, n)).last() == shard_file(n));
        }
        assert(!after.files.contains_key(weights)) by {
            assert(top.is_prefix_of(weights));
            if after.files.contains_key(weights) {
                assert(weights.last() == "weights"@);
                assert(config.last() == "config.json"@);
                assert(tokenizer.last() == "tokenizer.json"@);
                assert(weights.len() == top.len() + 1);
                let n = choose|n: u32|
                    given.shards.contains_key(n) && weights == #[trigger] place_of(
                        shard_file_of(model, n),
                    );
                assert(place_of(shard_file_of(model, n)).len() == top.len() + 2);
            }
        }
        assert forall|i: int| 0 <= i < names.len() implies entry_is_read(#[trigger] entries[i])
            && entry_size(entries[i]) == g(names[i]) by {
            let p = top.push(names[i]);
            assert(top.is_prefix_of(p));
            assert(p.last() == names[i]);
            match entries[i] {
                Ok(CacheEntry::File(Ok(n))) => {
                    if names[i] == "weights"@ {
                        assert(p == weights);
                    }
                },
                Ok(CacheEntry::Dir(Ok(inner))) => {
                    assert(after.dirs.contains(p));
                    assert(p.len() == top.len() + 1);
                    assert(p == weights);
                    assert(weights.last() == "weights"@);
                    let inner_names = choose|inner_names: Seq<Seq<char>>| #[trigger]
                        inner_listing(after, p, inner_names, inner@);
                    lemma_inner_size(after, weights, given.shards, inner_names, inner@);
                },
                _ => {},
            }
        }
        lemma_outer_walk(entries, names, g);
        lemma_sum_along(names, g);
        let found = names.to_set();
        assert forall|name: Seq<char>| #[trigger] found.contains(name) implies name
            == "config.json"@ || name == "tokenizer.json"@ || name == "weights"@ by {
            let p = top.push(name);
            assert(names.contains(name));
            assert(after.has(p));
            assert(top.is_prefix_of(p));
            assert(p.len() == top.len() + 1);
            assert(p.last() == name);
            assert(config.last() == "config.json"@);
            assert(tokenizer.last() == "tokenizer.json"@);
            assert(weights.last() == "weights"@);
            if after.files.contains_key(p) && p != config && p != tokenizer {
                let n = choose|n: u32|
                    given.shards.contains_key(n) && p == #[trigger] place_of(
                        shard_file_of(model, n),
                    );
                assert(place_of(shard_file_of(model, n)).len() == top.len() + 2);
            }
        }
        lemma_sum_of_three(found, g, "config.json"@, "tokenizer.json"@, "weights"@);
        assert(!after.dirs.contains(config) && !after.dirs.contains(tokenizer)) by {
            assert(top.is_prefix_of(config) && top.is_prefix_of(tokenizer));
            assert(config.len() == top.len() + 1 && tokenizer.len() == top.len() + 1);
            assert(config.last() == "config.json"@);
            assert(tokenizer.last() == "tokenizer.json"@);
            assert(weights.last() == "weights"@);
        }
        assert(names.contains("config.json"@) == after.has(config));
        assert(names.contains("tokenizer.json"@) == after.has(tokenizer));
        assert(names.contains("weights"@) == after.has(weights));
        if !after.has(weights) {
            assert forall|n: u32| !given.shards.dom().contains(n) by {
                if given.shards.contains_key(n) {
                    assert(after.dirs.contains(weights));
                }
            }
            assert(given.shards.dom() =~= Set::empty());
        }
    }
}

/// A model that had no directory counts as cached with a number of shards if
/// and only if its configuration, its tokenizer and every one of these shards
/// is among what was stored.
pub proof fn law_cached_only_if_all_was_stored(
    disk: Disk,
    model: Seq<char>,
    loads: Seq<Load>,
    shards: u32,
    shard: u32,
)
    requires
        disk.wf(),
        !disk.has(place_of(seq![model])),
        loads_succeed(disk, model, loads),
    ensures
        model_is_cached(loaded(disk, model, loads).shown(), model, shards) ==> exists|i: int|
            0 <= i < loads.len() && #[trigger] loads[i] is Config,
        model_is_cached(loaded(disk, model, loads).shown(), model, shards) ==> exists|i: int|
            0 <= i < loads.len() && #[trigger] loads[i] is Tokenizer,
        model_is_cached(loaded(disk, model, loads).shown(), model, shards) && shard < shards
            ==> exists|i: int|
            0 <= i < loads.len() && #[trigger] loads[i] is Weights && loads[i]->Weights_0 == shard,
        (exists|i: int| 0 <= i < loads.len() && #[trigger] loads[i] is Config) && (exists|i: int|
            0 <= i < loads.len() && #[trigger] loads[i] is Tokenizer) && (forall|n: u32|
            #![trigger shard_file(n)]
            n < shards ==> exists|i: int|
                0 <= i < loads.len() && #[trigger] loads[i] is Weights && loads[i]->Weights_0 == n)
            ==> model_is_cached(loaded(disk, model, loads).shown(), model, shards),
{
    let after = loaded(disk, model, loads);
    let given = last_given(loads);
    let top = place_of(model_dir_of(model));
    let config = place_of(config_file_of(model));
    let tokenizer = place_of(tokenizer_file_of(model));
    let weights = place_of(weights_dir_of(model));
    assert(model_dir_of(model) == seq![model]);
    lemma_places(model);
    lemma_loaded_files(disk, model, loads);
    lemma_only_assets(disk, model, loads);
    lemma_last_given(loads);
    assert(top.is_prefix_of(config) && top.is_prefix_of(tokenizer));
    assert(config.len() == top.len() + 1 && tokenizer.len() == top.len() + 1);
    assert(config.last() == "config.json"@ && tokenizer.last() == "tokenizer.json"@);
    assert(weights.last() == "weights"@);
    lemma_nothing_below(disk, top, config);
    lemma_nothing_below(disk, top, tokenizer);
    assert(after.has(config) <==> given.config is Some);
    assert(after.has(tokenizer) <==> given.tokenizer is Some);
    assert forall|n: u32|
        after.has(#[trigger] place_of(shard_file_of(model, n))) == given.shards.contains_key(n) by {
        let p = place_of(shard_file_of(model, n));
        assert(top.is_prefix_of(p));
        assert(p.len() == top.len() + 2);
        lemma_nothing_below(disk, top, p);
        assert(!disk.has(p));
        assert(!after.dirs.contains(p));
    }
    if model_is_cached(after.shown(), model, shards) {
        assert(after.shown().contains(config_file_of(model)));
        assert(after.shown().contains(tokenizer_file_of(model)));
        if shard < shards {
            assert(after.shown().contains(shard_file_of(model, shard)));
            assert(after.has(place_of(shard_file_of(model, shard))));
            assert(given.shards.contains_key(shard));
        }
    }
    if (exists|i: int| 0 <= i < loads.len() && #[trigger] loads[i] is Config) && (exists|i: int|
        0 <= i < loads.len() && #[trigger] loads[i] is Tokenizer) && (forall|n: u32|
        #![trigger shard_file(n)]
        n < shards ==> exists|i: int|
            0 <= i < loads.len() && #[trigger] loads[i] is Weights && loads[i]->Weights_0 == n) {
        assert forall|n: u32| n < shards implies after.shown().contains(
            #[trigger] shard_file_of(model, n),
        ) by {
            assert(shard_file(n) == shard_file(n));
            assert(given.shards.contains_key(n));
            assert(after.has(place_of(shard_file_of(model, n))));
        }
        assert(after.shown().contains(config_file_of(model)));
        assert(after.shown().contains(tokenizer_file_of(model)));
    }
}

/// What was given is among what came in.
proof fn lemma_last_given(loads: Seq<Load>)
    ensures
        last_given(loads).config is Some <==> exists|i: int|
            0 <= i < loads.len() && #[trigger] loads[i] is Config,
        last_given(loads).tokenizer is Some <==> exists|i: int|
            0 <= i < loads.len() && #[trigger] loads[i] is Tokenizer,
        forall|n: u32| #[trigger]
            last_given(loads).shards.contains_key(n) <==> exists|i: int|
                0 <= i < loads.len() && #[trigger] loads[i] is Weights && loads[i]->Weights_0 == n,
    decreases loads.len(),
{
    if loads.len() > 0 {
        let front = loads.drop_last();
        let last = loads.len() - 1;
        lemma_last_given(front);
        assert forall|i: int| 0 <= i < front.len() implies #[trigger] front[i] == loads[i] by {}
        assert(loads[last] == loads.last());
        if last_given(front).config is Some {
            let i = choose|i: int| 0 <= i < front.len() && #[trigger] front[i] is Config;
            assert(loads[i] is Config);
        }
        if exists|i: int| 0 <= i < loads.len() && #[trigger] loads[i] is Config {
            let i = choose|i: int| 0 <= i < loads.len() && #[trigger] loads[i] is Config;
            if i < last {
                assert(front[i] is Config);
            }
        }
        if last_given(front).tokenizer is Some {
            let i = choose|i: int| 0 <= i < front.len() && #[trigger] front[i] is Tokenizer;
            assert(loads[i] is Tokenizer);
        }
        if exists|i: int| 0 <= i < loads.len() && #[trigger] loads[i] is Tokenizer {
            let i = choose|i: int| 0 <= i < loads.len() && #[trigger] loads[i] is Tokenizer;
            if i < last {
                assert(front[i] is Tokenizer);
            }
        }
        assert forall|n: u32| #[trigger]
            last_given(loads).shards.contains_key(n) <==> exists|i: int|
                0 <= i < loads.len() && #[trigger] loads[i] is Weights && loads[i]->Weights_0
                    == n by {
            if last_given(front).shards.contains_key(n) {
                let i = choose|i: int|
                    0 <= i < front.len() && #[trigger] front[i] is Weights && front[i]->Weights_0
                        == n;
                assert(loads[i] is Weights);
            }
            if exists|i: int|
                0 <= i < loads.len() && #[trigger] loads[i] is Weights && loads[i]->Weights_0
                    == n {
                let i = choose|i: int|
                    0 <= i < loads.len() && #[trigger] loads[i] is Weights && loads[i]->Weights_0
                        == n;
                if i < last {
                    assert(front[i] is Weights);
                }
            }
        }
    }
}

} // verus!
