use vstd::prelude::*;

verus! {

/// Options for a point read; it carries no settings.
#[derive(Clone, Copy)]
pub struct ReadOptions {}

impl ReadOptions {
    pub fn new() -> (r: ReadOptions) {
        ReadOptions {}
    }
}

impl Default for ReadOptions {
    fn default() -> (r: ReadOptions) {
        ReadOptions {}
    }
}

/// Options for a write batch.
#[derive(Clone, Copy)]
pub struct WriteOptions {
    sync: bool,
}

impl WriteOptions {
    /// A write that does not wait for the log to reach disk.
    pub fn new() -> (r: WriteOptions)
        ensures
            !r.spec_sync(),
    {
        WriteOptions { sync: false }
    }

    pub closed spec fn spec_sync(&self) -> bool {
        self.sync
    }

    pub fn set_sync(&mut self, sync: bool)
        ensures
            final(self).spec_sync() == sync,
    {
        self.sync = sync;
    }

    pub fn sync(&self) -> (r: bool)
        ensures
            r == self.spec_sync(),
    {
        self.sync
    }
}

impl Default for WriteOptions {
    fn default() -> (r: WriteOptions)
        ensures
            !r.spec_sync(),
    {
        WriteOptions { sync: false }
    }
}

/// Options for a column family; it carries no settings.
#[derive(Clone, Copy)]
pub struct CFOptions {}

impl CFOptions {
    pub fn new() -> (r: CFOptions) {
        CFOptions {}
    }
}

impl Default for CFOptions {
    fn default() -> (r: CFOptions) {
        CFOptions {}
    }
}

/// How an iterator seeks: over the whole key order, or within a prefix.
#[derive(Clone, Copy, Debug, PartialEq, Eq, Structural)]
pub enum SeekMode {
    TotalOrder,
    Prefix,
}

/// An iteration bound: its key, and room reserved in front of it for a
/// prefix that may be set later.
#[derive(Clone, Debug)]
pub struct KeyBound {
    key: Vec<u8>,
    reserved_prefix_len: usize,
}

pub struct KeyBoundView {
    pub key: Seq<u8>,
    pub reserved_prefix_len: nat,
}

impl View for KeyBound {
    type V = KeyBoundView;

    closed spec fn view(&self) -> KeyBoundView {
        KeyBoundView { key: self.key@, reserved_prefix_len: self.reserved_prefix_len as nat }
    }
}

pub open spec fn bound_key(b: Option<KeyBound>) -> Option<Seq<u8>> {
    match b {
        Some(k) => Some(k@.key),
        None => None,
    }
}

impl KeyBound {
    /// The bound `key`, with room for a prefix of `reserved_prefix_len` bytes.
    pub fn from_slice(key: &[u8], reserved_prefix_len: usize) -> (r: KeyBound)
        ensures
            r@.key == key@,
            r@.reserved_prefix_len == reserved_prefix_len,
    {
        let mut v: Vec<u8> = Vec::new();
        let mut i: usize = 0;
        while i < key.len()
            invariant
                i <= key@.len(),
                v@ == key@.subrange(0, i as int),
            decreases key@.len() - i,
        {
            v.push(key[i]);
            i = i + 1;
            assert(v@ =~= key@.subrange(0, i as int));
        }
        assert(key@.subrange(0, i as int) =~= key@);
        KeyBound { key: v, reserved_prefix_len }
    }

    /// The bound `key`, with no room for a prefix.
    pub fn from_vec(key: Vec<u8>) -> (r: KeyBound)
        ensures
            r@.key == key@,
            r@.reserved_prefix_len == 0,
    {
        KeyBound { key, reserved_prefix_len: 0 }
    }

    /// Puts `prefix` in front of the key, taking it from the reserved room.
    pub fn set_prefix(&mut self, prefix: &[u8])
        requires
            prefix@.len() <= old(self)@.reserved_prefix_len,
        ensures
            final(self)@.key == prefix@ + old(self)@.key,
            final(self)@.reserved_prefix_len == old(self)@.reserved_prefix_len - prefix@.len(),
    {
        let mut v: Vec<u8> = Vec::new();
        let mut i: usize = 0;
        while i < prefix.len()
            invariant
                i <= prefix@.len(),
                v@ == prefix@.subrange(0, i as int),
            decreases prefix@.len() - i,
        {
            v.push(prefix[i]);
            i = i + 1;
            assert(v@ =~= prefix@.subrange(0, i as int));
        }
        let mut j: usize = 0;
        while j < self.key.len()
            invariant
                i == prefix@.len(),
                j <= self.key@.len(),
                v@ == prefix@ + self.key@.subrange(0, j as int),
            decreases self.key@.len() - j,
        {
            v.push(self.key[j]);
            j = j + 1;
            assert(v@ =~= prefix@ + self.key@.subrange(0, j as int));
        }
        assert(self.key@.subrange(0, j as int) =~= self.key@);
        self.key = v;
        self.reserved_prefix_len = self.reserved_prefix_len - prefix.len();
    }

    pub fn as_slice(&self) -> (r: &[u8])
        ensures
            r@ == self@.key,
    {
        self.key.as_slice()
    }
}

/// Options for an iterator over a column family.
#[derive(Clone, Debug)]
pub struct IterOptions {
    lower_bound: Option<KeyBound>,
    upper_bound: Option<KeyBound>,
    prefix_same_as_start: bool,
    fill_cache: bool,
    key_only: bool,
    seek_mode: SeekMode,
}

pub struct IterOptionsView {
    pub lower_bound: Option<KeyBoundView>,
    pub upper_bound: Option<KeyBoundView>,
    pub prefix_same_as_start: bool,
    pub fill_cache: bool,
    pub key_only: bool,
    pub seek_mode: SeekMode,
}

pub open spec fn opt_bound_view(b: Option<KeyBound>) -> Option<KeyBoundView> {
    match b {
        Some(k) => Some(k@),
        None => None,
    }
}

impl View for IterOptions {
    type V = IterOptionsView;

    closed spec fn view(&self) -> IterOptionsView {
        IterOptionsView {
            lower_bound: opt_bound_view(self.lower_bound),
            upper_bound: opt_bound_view(self.upper_bound),
            prefix_same_as_start: self.prefix_same_as_start,
            fill_cache: self.fill_cache,
            key_only: self.key_only,
            seek_mode: self.seek_mode,
        }
    }
}

pub open spec fn slice_key(b: Option<&[u8]>) -> Option<Seq<u8>> {
    match b {
        Some(s) => Some(s@),
        None => None,
    }
}

pub open spec fn view_key(b: Option<KeyBoundView>) -> Option<Seq<u8>> {
    match b {
        Some(k) => Some(k.key),
        None => None,
    }
}

impl IterOptions {
    /// Total-order iteration between the given bounds.
    pub fn new(lower_bound: Option<KeyBound>, upper_bound: Option<KeyBound>, fill_cache: bool) -> (r:
        IterOptions)
        ensures
            r@ == (IterOptionsView {
                lower_bound: opt_bound_view(lower_bound),
                upper_bound: opt_bound_view(upper_bound),
                prefix_same_as_start: false,
                fill_cache,
                key_only: false,
                seek_mode: SeekMode::TotalOrder,
            }),
    {
        IterOptions {
            lower_bound,
            upper_bound,
            prefix_same_as_start: false,
            fill_cache,
            key_only: false,
            seek_mode: SeekMode::TotalOrder,
        }
    }

    pub fn use_prefix_seek(self) -> (r: IterOptions)
        ensures
            r@ == (IterOptionsView { seek_mode: SeekMode::Prefix, ..self@ }),
    {
        let mut r = self;
        r.seek_mode = SeekMode::Prefix;
        r
    }

    pub fn total_order_seek_used(&self) -> (r: bool)
        ensures
            r == (self@.seek_mode == SeekMode::TotalOrder),
    {
        self.seek_mode == SeekMode::TotalOrder
    }

    pub fn set_fill_cache(&mut self, v: bool)
        ensures
            final(self)@ == (IterOptionsView { fill_cache: v, ..old(self)@ }),
    {
        self.fill_cache = v;
    }

    pub fn fill_cache(&self) -> (r: bool)
        ensures
            r == self@.fill_cache,
    {
        self.fill_cache
    }

    pub fn set_key_only(&mut self, v: bool)
        ensures
            final(self)@ == (IterOptionsView { key_only: v, ..old(self)@ }),
    {
        self.key_only = v;
    }

    pub fn key_only(&self) -> (r: bool)
        ensures
            r == self@.key_only,
    {
        self.key_only
    }

    pub fn lower_bound(&self) -> (r: Option<&[u8]>)
        ensures
            slice_key(r) == view_key(self@.lower_bound),
    {
        match &self.lower_bound {
            Some(b) => Some(b.as_slice()),
            None => None,
        }
    }

    /// Sets the lower bound to `bound`, with room for a prefix of
    /// `reserved_prefix_len` bytes.
    pub fn set_lower_bound(&mut self, bound: &[u8], reserved_prefix_len: usize)
        ensures
            final(self)@ == (IterOptionsView {
                lower_bound: Some(
                    KeyBoundView { key: bound@, reserved_prefix_len: reserved_prefix_len as nat },
                ),
                ..old(self)@
            }),
    {
        self.lower_bound = Some(KeyBound::from_slice(bound, reserved_prefix_len));
    }

    pub fn set_vec_lower_bound(&mut self, bound: Vec<u8>)
        ensures
            final(self)@ == (IterOptionsView {
                lower_bound: Some(KeyBoundView { key: bound@, reserved_prefix_len: 0 }),
                ..old(self)@
            }),
    {
        self.lower_bound = Some(KeyBound::from_vec(bound));
    }

    /// Puts `prefix` in front of the lower bound, if there is one.
    pub fn set_lower_bound_prefix(&mut self, prefix: &[u8])
        requires
            old(self)@.lower_bound matches Some(b) ==> prefix@.len() <= b.reserved_prefix_len,
        ensures
            final(self)@ == (IterOptionsView {
                lower_bound: match old(self)@.lower_bound {
                    Some(b) => Some(
                        KeyBoundView {
                            key: prefix@ + b.key,
                            reserved_prefix_len: (b.reserved_prefix_len - prefix@.len()) as nat,
                        },
                    ),
                    None => None,
                },
                ..old(self)@
            }),
    {
        match self.lower_bound.take() {
            Some(mut b) => {
                b.set_prefix(prefix);
                self.lower_bound = Some(b);
            },
            None => {},
        }
    }

    pub fn upper_bound(&self) -> (r: Option<&[u8]>)
        ensures
            slice_key(r) == view_key(self@.upper_bound),
    {
        match &self.upper_bound {
            Some(b) => Some(b.as_slice()),
            None => None,
        }
    }

    /// Sets the upper bound to `bound`, with room for a prefix of
    /// `reserved_prefix_len` bytes.
    pub fn set_upper_bound(&mut self, bound: &[u8], reserved_prefix_len: usize)
        ensures
            final(self)@ == (IterOptionsView {
                upper_bound: Some(
                    KeyBoundView { key: bound@, reserved_prefix_len: reserved_prefix_len as nat },
                ),
                ..old(self)@
            }),
    {
        self.upper_bound = Some(KeyBound::from_slice(bound, reserved_prefix_len));
    }

    pub fn set_vec_upper_bound(&mut self, bound: Vec<u8>)
        ensures
            final(self)@ == (IterOptionsView {
                upper_bound: Some(KeyBoundView { key: bound@, reserved_prefix_len: 0 }),
                ..old(self)@
            }),
    {
        self.upper_bound = Some(KeyBound::from_vec(bound));
    }

    /// Puts `prefix` in front of the upper bound, if there is one.
    pub fn set_upper_bound_prefix(&mut self, prefix: &[u8])
        requires
            old(self)@.upper_bound matches Some(b) ==> prefix@.len() <= b.reserved_prefix_len,
        ensures
            final(self)@ == (IterOptionsView {
                upper_bound: match old(self)@.upper_bound {
                    Some(b) => Some(
                        KeyBoundView {
                            key: prefix@ + b.key,
                            reserved_prefix_len: (b.reserved_prefix_len - prefix@.len()) as nat,
                        },
                    ),
                    None => None,
                },
                ..old(self)@
            }),
    {
        match self.upper_bound.take() {
            Some(mut b) => {
                b.set_prefix(prefix);
                self.upper_bound = Some(b);
            },
            None => {},
        }
    }

    pub fn set_prefix_same_as_start(&mut self, enable: bool)
        ensures
            final(self)@ == (IterOptionsView { prefix_same_as_start: enable, ..old(self)@ }),
    {
        self.prefix_same_as_start = enable;
    }

    pub fn prefix_same_as_start(&self) -> (r: bool)
        ensures
            r == self@.prefix_same_as_start,
    {
        self.prefix_same_as_start
    }
}

impl Default for IterOptions {
    fn default() -> (r: IterOptions)
        ensures
            r@ == (IterOptionsView {
                lower_bound: None,
                upper_bound: None,
                prefix_same_as_start: false,
                fill_cache: false,
                key_only: false,
                seek_mode: SeekMode::TotalOrder,
            }),
    {
        IterOptions {
            lower_bound: None,
            upper_bound: None,
            prefix_same_as_start: false,
            fill_cache: false,
            key_only: false,
            seek_mode: SeekMode::TotalOrder,
        }
    }
}

} // verus!
