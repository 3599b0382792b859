//! Cache of complete audio assets.

use crate::select::{
    flags_by, is_flagged, keep_flagged, lemma_select, lemma_select_flags, lemma_select_map, select,
    selecting_is_filtering,
};
use crate::shared::share;
use std::sync::Arc;
use vstd::prelude::*;

verus! {

/// What can go wrong while an audio asset is loaded.
#[derive(Debug, Clone, Copy, PartialEq, Eq, Structural)]
pub enum AudioAssetLoadError {
    /// The media type is not given, and cannot be told from the data.
    UnrecognizedMediaType,
}

impl AudioAssetLoadError {
    /// The message for people.
    pub fn message(&self) -> (r: &'static str)
        ensures
            r@ == "unrecognized audio media type"@,
    {
        "unrecognized audio media type"
    }
}

/// A loaded asset: its bytes and its media type. Decoding is left to playback.
#[derive(Debug)]
pub struct PlayableAudioAsset {
    /// Media type, such as `audio/ogg`.
    pub media_type: String,
    /// Encoded bytes.
    pub blob: Arc<Vec<u8>>,
}

/// Names a blob: the row and the component in which it was logged.
#[derive(Debug)]
pub struct BlobKey {
    pub row_id: u128,
    pub component: String,
}

/// What a blob key holds.
#[verifier::ext_equal]
pub struct BlobKeyView {
    pub row_id: u128,
    pub component: Seq<char>,
}

impl View for BlobKey {
    type V = BlobKeyView;

    open spec fn view(&self) -> BlobKeyView {
        BlobKeyView { row_id: self.row_id, component: self.component@ }
    }
}

fn same_key(a: &BlobKey, b: &BlobKey) -> (r: bool)
    ensures
        r == (a@ == b@),
{
    a.row_id == b.row_id && a.component == b.component
}

/// One cached asset.
pub struct AssetEntry {
    key: BlobKey,
    media_type: String,
    used_this_frame: bool,
    asset: Arc<Result<PlayableAudioAsset, AudioAssetLoadError>>,
    debug_name: String,
}

/// What a cached asset is found under, and what it holds.
#[verifier::ext_equal]
pub struct AssetEntryView {
    pub key: BlobKeyView,
    pub media_type: Seq<char>,
    pub used_this_frame: bool,
    pub asset: Arc<Result<PlayableAudioAsset, AudioAssetLoadError>>,
    pub debug_name: Seq<char>,
}

impl View for AssetEntry {
    type V = AssetEntryView;

    closed spec fn view(&self) -> AssetEntryView {
        AssetEntryView {
            key: self.key@,
            media_type: self.media_type@,
            used_this_frame: self.used_this_frame,
            asset: self.asset,
            debug_name: self.debug_name@,
        }
    }
}

/// The views of `entries`.
pub open spec fn entry_views(entries: Seq<AssetEntry>) -> Seq<AssetEntryView> {
    entries.map_values(|e: AssetEntry| e@)
}

/// The position of the entry for a blob and a media type, looking at the first `n`.
pub open spec fn entry_position(
    entries: Seq<AssetEntryView>,
    key: BlobKeyView,
    media_type: Seq<char>,
    n: nat,
) -> Option<int>
    decreases n,
{
    if n == 0 {
        None
    } else {
        match entry_position(entries, key, media_type, (n - 1) as nat) {
            Some(i) => Some(i),
            None => if entries[n - 1].key == key && entries[n - 1].media_type == media_type {
                Some(n - 1)
            } else {
                None
            },
        }
    }
}

/// `entry`, marked as used or not.
pub open spec fn marked(entry: AssetEntryView, used: bool) -> AssetEntryView {
    AssetEntryView { used_this_frame: used, ..entry }
}

/// The entries after a new frame has begun: those used in the frame before, not used yet.
pub open spec fn next_frame(entries: Seq<AssetEntryView>) -> Seq<AssetEntryView> {
    select(entries, flags_by(entries, |e: AssetEntryView| e.used_this_frame)).map_values(
        |e: AssetEntryView| marked(e, false),
    )
}

/// The entries whose blob is not among `removed`.
pub open spec fn without_blobs(entries: Seq<AssetEntryView>, removed: Seq<BlobKeyView>) -> Seq<
    AssetEntryView,
> {
    select(entries, flags_by(entries, |e: AssetEntryView| !removed.contains(e.key)))
}

/// Keeps loaded assets as long as they are used.
pub struct AudioAssetCache {
    entries: Vec<AssetEntry>,
}

impl View for AudioAssetCache {
    type V = Seq<AssetEntryView>;

    closed spec fn view(&self) -> Seq<AssetEntryView> {
        entry_views(self.entries@)
    }
}

proof fn lemma_entry_position(
    entries: Seq<AssetEntryView>,
    key: BlobKeyView,
    media_type: Seq<char>,
    n: nat,
    m: nat,
)
    requires
        n <= m,
        entry_position(entries, key, media_type, n) is Some,
    ensures
        entry_position(entries, key, media_type, m) == entry_position(entries, key, media_type, n),
    decreases m,
{
    if n < m {
        lemma_entry_position(entries, key, media_type, n, (m - 1) as nat);
    }
}

impl AudioAssetCache {
    /// An empty cache.
    pub fn new() -> (r: Self)
        ensures
            r@ == Seq::<AssetEntryView>::empty(),
    {
        let r = AudioAssetCache { entries: Vec::new() };
        assert(r@ =~= Seq::<AssetEntryView>::empty());
        r
    }

    /// The name of the cache.
    pub fn name(&self) -> (r: &'static str)
        ensures
            r@ == "AudioAssetCache"@,
    {
        "AudioAssetCache"
    }

    fn find(&self, key: &BlobKey, media_type: &String) -> (r: Option<usize>)
        ensures
            match r {
                Some(i) => i < self.entries@.len() && entry_position(
                    self@,
                    key@,
                    media_type@,
                    self@.len(),
                ) == Some(i as int),
                None => entry_position(self@, key@, media_type@, self@.len()) is None,
            },
    {
        let mut i: usize = 0;
        while i < self.entries.len()
            invariant
                i <= self.entries@.len(),
                entry_position(self@, key@, media_type@, i as nat) is None,
            decreases self.entries@.len() - i,
        {
            let entry = &self.entries[i];
            assert(self@[i as int] == entry@);
            if same_key(&entry.key, key) && entry.media_type == *media_type {
                proof {
                    lemma_entry_position(self@, key@, media_type@, (i + 1) as nat, self@.len());
                }
                return Some(i);
            }
            i = i + 1;
        }
        None
    }

    /// The asset for a blob. Its media type is the one given, or else the one that was told from
    /// the data; without either there is no asset. An asset is loaded once and then kept, and is
    /// marked as used.
    pub fn entry(
        &mut self,
        debug_name: String,
        key: BlobKey,
        audio_buffer: &Vec<u8>,
        media_type: Option<String>,
        guessed: Option<String>,
    ) -> (r: Arc<Result<PlayableAudioAsset, AudioAssetLoadError>>)
        ensures
            (media_type is None && guessed is None) ==> {
                &&& *r == Err::<PlayableAudioAsset, AudioAssetLoadError>(
                    AudioAssetLoadError::UnrecognizedMediaType,
                )
                &&& final(self)@ == old(self)@
            },
            (media_type is Some || guessed is Some) ==> {
                let resolved = if media_type is Some {
                    media_type->0@
                } else {
                    guessed->0@
                };
                match entry_position(old(self)@, key@, resolved, old(self)@.len()) {
                    Some(i) => {
                        &&& r == old(self)@[i].asset
                        &&& final(self)@ == old(self)@.update(i, marked(old(self)@[i], true))
                    },
                    None => {
                        &&& *r matches Ok(asset)
                        &&& asset.media_type@ == resolved
                        &&& asset.blob@ == audio_buffer@
                        &&& final(self)@ == old(self)@.push(
                            AssetEntryView {
                                key: key@,
                                media_type: resolved,
                                used_this_frame: true,
                                asset: r,
                                debug_name: debug_name@,
                            },
                        )
                    },
                }
            },
    {
        let resolved = match media_type {
            Some(given) => given,
            None => match guessed {
                Some(guess) => guess,
                None => {
                    return Arc::new(Err(AudioAssetLoadError::UnrecognizedMediaType));
                },
            },
        };
        let ghost before = self@;
        match self.find(&key, &resolved) {
            Some(i) => {
                let asset = share(&self.entries[i].asset);
                assert(before[i as int] == self.entries@[i as int]@);
                self.mark(i);
                asset
            },
            None => {
                let asset = Arc::new(
                    Ok(
                        PlayableAudioAsset {
                            media_type: resolved.clone(),
                            blob: Arc::new(crate::chunk::copy_bytes(audio_buffer)),
                        },
                    ),
                );
                let r = share(&asset);
                let entry = AssetEntry {
                    key,
                    media_type: resolved,
                    used_this_frame: true,
                    asset,
                    debug_name,
                };
                let ghost added = entry@;
                self.entries.push(entry);
                assert(self@ =~= before.push(added));
                r
            },
        }
    }

    fn mark(&mut self, i: usize)
        requires
            i < old(self)@.len(),
        ensures
            final(self)@ == old(self)@.update(i as int, marked(old(self)@[i as int], true)),
    {
        let ghost before = self@;
        let ghost entries = self.entries@;
        self.entries[i].used_this_frame = true;
        assert(self@ =~= before.update(i as int, marked(before[i as int], true))) by {
            assert forall|k: int| 0 <= k < before.len() implies #[trigger] self@[k]
                == before.update(i as int, marked(before[i as int], true))[k] by {
                assert(before[k] == entries[k]@);
            }
        }
    }

    /// Begins a new frame: drops what the frame before did not use.
    pub fn begin_frame(&mut self)
        ensures
            final(self)@ == next_frame(old(self)@),
    {
        let ghost before = self@;
        let mut flags: Vec<bool> = Vec::new();
        let mut i: usize = 0;
        while i < self.entries.len()
            invariant
                i <= self.entries@.len(),
                before == self@,
                flags@.len() == i,
                forall|k: int| 0 <= k < i ==> #[trigger] flags@[k] == before[k].used_this_frame,
            decreases self.entries@.len() - i,
        {
            assert(before[i as int] == self.entries@[i as int]@);
            flags.push(self.entries[i].used_this_frame);
            i = i + 1;
        }
        proof {
            lemma_select_flags(
                before,
                flags@,
                flags_by(before, |e: AssetEntryView| e.used_this_frame),
            );
            lemma_select_map(self.entries@, |e: AssetEntry| e@, flags@);
        }
        keep_flagged(&mut self.entries, &flags);
        let ghost kept = self@;
        let mut i: usize = 0;
        while i < self.entries.len()
            invariant
                i <= self.entries@.len(),
                self.entries@.len() == kept.len(),
                forall|k: int|
                    0 <= k < i ==> (#[trigger] self.entries@[k])@ == marked(kept[k], false),
                forall|k: int|
                    i <= k < kept.len() ==> (#[trigger] self.entries@[k])@ == kept[k],
            decreases self.entries@.len() - i,
        {
            self.entries[i].used_this_frame = false;
            i = i + 1;
        }
        assert(self@ =~= next_frame(before)) by {
            assert forall|k: int| 0 <= k < kept.len() implies #[trigger] self@[k] == marked(
                kept[k],
                false,
            ) by {
                assert(self.entries@[k]@ == marked(kept[k], false));
            }
        }
    }

    /// Drops the assets whose blobs are gone.
    pub fn on_store_events(&mut self, removed: &Vec<BlobKey>)
        ensures
            final(self)@ == without_blobs(old(self)@, removed@.map_values(|k: BlobKey| k@)),
    {
        let ghost before = self@;
        let ghost gone = removed@.map_values(|k: BlobKey| k@);
        let mut flags: Vec<bool> = Vec::new();
        let mut i: usize = 0;
        while i < self.entries.len()
            invariant
                i <= self.entries@.len(),
                before == self@,
                gone == removed@.map_values(|k: BlobKey| k@),
                flags@.len() == i,
                forall|k: int| 0 <= k < i ==> #[trigger] flags@[k] == !gone.contains(before[k].key),
            decreases self.entries@.len() - i,
        {
            assert(before[i as int] == self.entries@[i as int]@);
            let hit: bool = contains_key(removed, &self.entries[i].key);
            flags.push(!hit);
            i = i + 1;
        }
        proof {
            lemma_select_flags(
                before,
                flags@,
                flags_by(before, |e: AssetEntryView| !gone.contains(e.key)),
            );
            lemma_select_map(self.entries@, |e: AssetEntry| e@, flags@);
        }
        keep_flagged(&mut self.entries, &flags);
    }
}

fn contains_key(list: &Vec<BlobKey>, key: &BlobKey) -> (r: bool)
    ensures
        r == list@.map_values(|k: BlobKey| k@).contains(key@),
{
    let ghost views = list@.map_values(|k: BlobKey| k@);
    let mut i: usize = 0;
    while i < list.len()
        invariant
            i <= list@.len(),
            views == list@.map_values(|k: BlobKey| k@),
            forall|k: int| 0 <= k < i ==> (#[trigger] views[k]) != key@,
        decreases list@.len() - i,
    {
        assert(views[i as int] == list@[i as int]@);
        if same_key(&list[i], key) {
            return true;
        }
        i = i + 1;
    }
    false
}

/// An asset that no frame asks for is gone after the next frame has begun twice.
pub proof fn unused_assets_are_dropped(entries: Seq<AssetEntryView>)
    ensures
        next_frame(next_frame(entries)) == Seq::<AssetEntryView>::empty(),
{
    let once = next_frame(entries);
    let rule = |e: AssetEntryView| e.used_this_frame;
    let flags = flags_by(once, rule);
    let kept = select(once, flags);
    lemma_select(once, flags);
    if kept.len() > 0 {
        assert(is_flagged(once, flags, kept[0]));
        let i = choose|i: int| 0 <= i < once.len() && flags[i] && (#[trigger] once[i]) == kept[0];
        assert(flags[i] == rule(once[i]));
    }
    assert(next_frame(once) =~= Seq::<AssetEntryView>::empty());
}

/// An asset is found where its blob and its media type were first put, and nowhere else.
pub proof fn assets_are_found_by_blob_and_type(
    entries: Seq<AssetEntryView>,
    key: BlobKeyView,
    media_type: Seq<char>,
    n: nat,
)
    requires
        n <= entries.len(),
    ensures
        match entry_position(entries, key, media_type, n) {
            Some(i) => {
                &&& 0 <= i < n
                &&& entries[i].key == key
                &&& entries[i].media_type == media_type
                &&& forall|j: int|
                    0 <= j < i ==> (#[trigger] entries[j]).key != key || entries[j].media_type
                        != media_type
            },
            None => forall|j: int|
                0 <= j < n ==> (#[trigger] entries[j]).key != key || entries[j].media_type
                    != media_type,
        },
    decreases n,
{
    if n > 0 {
        assets_are_found_by_blob_and_type(entries, key, media_type, (n - 1) as nat);
    }
}

/// A new frame keeps exactly the assets that the frame before used, in order and with all that
/// they hold, and counts none of them as used.
pub proof fn used_assets_stay_for_a_frame(entries: Seq<AssetEntryView>)
    ensures
        ({
            let used = entries.filter(|e: AssetEntryView| e.used_this_frame);
            let after = next_frame(entries);
            &&& after.len() == used.len()
            &&& forall|k: int|
                0 <= k < used.len() ==> {
                    &&& (#[trigger] after[k]).key == used[k].key
                    &&& after[k].media_type == used[k].media_type
                    &&& after[k].asset == used[k].asset
                    &&& !after[k].used_this_frame
                }
        }),
{
    let rule = |e: AssetEntryView| e.used_this_frame;
    selecting_is_filtering(entries, rule, rule);
}

/// Exactly the assets of which the blob is gone are dropped; the others stay in order.
pub proof fn assets_go_with_their_blobs(entries: Seq<AssetEntryView>, removed: Seq<BlobKeyView>)
    ensures
        without_blobs(entries, removed) == entries.filter(
            |e: AssetEntryView|
                forall|k: int| 0 <= k < removed.len() ==> #[trigger] removed[k] != e.key,
        ),
{
    let rule = |e: AssetEntryView| !removed.contains(e.key);
    let pred = |e: AssetEntryView|
        forall|k: int| 0 <= k < removed.len() ==> #[trigger] removed[k] != e.key;
    assert forall|e: AssetEntryView| #[trigger] rule(e) == pred(e) by {
        if removed.contains(e.key) {
            let k = choose|k: int| 0 <= k < removed.len() && removed[k] == e.key;
            assert(removed[k] == e.key);
        }
    }
    selecting_is_filtering(entries, rule, pred);
}

/// Asking for an asset with a media type gives an asset of that type, and puts it where the next
/// frame keeps it; the type that is given counts before the one that was guessed. What comes for
/// the first time holds the bytes of the blob, and what is there already is handed out as it is.
pub proof fn assets_are_loaded_once()
    ensures
        forall|
            cache: &mut AudioAssetCache,
            name: String,
            key: BlobKey,
            bytes: &Vec<u8>,
            given: Option<String>,
            guessed: Option<String>,
            r: Arc<Result<PlayableAudioAsset, AudioAssetLoadError>>,
        |
            #[trigger] call_ensures(
                AudioAssetCache::entry,
                (cache, name, key, bytes, given, guessed),
                r,
            ) ==> {
                let wanted = if given is Some {
                    given
                } else {
                    guessed
                };
                &&& wanted is None ==> *r is Err && final(cache)@ == cache@
                &&& wanted matches Some(kind) ==> {
                    &&& exists|i: int|
                        0 <= i < final(cache)@.len() && (#[trigger] final(cache)@[i]).key == key@
                            && final(cache)@[i].media_type == kind@ && final(cache)@[i].asset == r
                            && final(cache)@[i].used_this_frame
                    &&& (forall|j: int|
                        0 <= j < cache@.len() ==> (#[trigger] cache@[j]).key != key@
                            || cache@[j].media_type != kind@) ==> *r is Ok && (*r)->Ok_0.blob@
                        == bytes@ && (*r)->Ok_0.media_type@ == kind@
                    &&& forall|j: int|
                        0 <= j < cache@.len() ==> (#[trigger] final(cache)@[j]).asset
                            == cache@[j].asset && final(cache)@[j].key == cache@[j].key
                }
            },
{
    assert forall|
        cache: &mut AudioAssetCache,
        name: String,
        key: BlobKey,
        bytes: &Vec<u8>,
        given: Option<String>,
        guessed: Option<String>,
        r: Arc<Result<PlayableAudioAsset, AudioAssetLoadError>>,
    |
        #[trigger] call_ensures(
            AudioAssetCache::entry,
            (cache, name, key, bytes, given, guessed),
            r,
        ) implies {
        let wanted = if given is Some {
            given
        } else {
            guessed
        };
        &&& wanted is None ==> *r is Err && final(cache)@ == cache@
        &&& wanted matches Some(kind) ==> {
            &&& exists|i: int|
                0 <= i < final(cache)@.len() && (#[trigger] final(cache)@[i]).key == key@
                    && final(cache)@[i].media_type == kind@ && final(cache)@[i].asset == r
                    && final(cache)@[i].used_this_frame
            &&& (forall|j: int|
                0 <= j < cache@.len() ==> (#[trigger] cache@[j]).key != key@
                    || cache@[j].media_type != kind@) ==> *r is Ok && (*r)->Ok_0.blob@ == bytes@ && (
            *r)->Ok_0.media_type@ == kind@
            &&& forall|j: int|
                0 <= j < cache@.len() ==> (#[trigger] final(cache)@[j]).asset == cache@[j].asset
                    && final(cache)@[j].key == cache@[j].key
        }
    } by {
        let wanted = if given is Some {
            given
        } else {
            guessed
        };
        if let Some(kind) = wanted {
            let before = cache@;
            let after = final(cache)@;
            assets_are_found_by_blob_and_type(before, key@, kind@, before.len());
            match entry_position(before, key@, kind@, before.len()) {
                Some(i) => {
                    assert(after[i].asset == r);
                },
                None => {
                    assert(after[before.len() as int].asset == r);
                },
            }
        }
    }
}

} // verus!
