//! Identifier and string interning: deduplicates text into cheap,
//! comparable `Symbol` handles that index into an `Interner`.

use vstd::prelude::*;

verus! {

/// Index of the primitive type name `bool` in an interner built by
/// [`Interner::with_primitives`].
pub const SYM_BOOL: u32 = 0;

/// Index of `uint8`; `uint16`, `uint32` and `uint64` follow in order.
pub const SYM_UINT8: u32 = 1;

/// Index of `int8`; `int16`, `int32` and `int64` follow in order.
pub const SYM_INT8: u32 = 5;

/// Index of `u8`; `u16`, `u32` and `u64` follow in order.
pub const SYM_U8: u32 = 9;

/// Index of `s8`; `s16`, `s32` and `s64` follow in order.
pub const SYM_S8: u32 = 13;

/// Number of names preinterned by [`Interner::with_primitives`].
pub const PRIMITIVE_SYMS: u32 = 17;

/// A cheap, comparable handle for a piece of interned text.
#[derive(Debug, Clone, Copy, PartialEq, Eq, Hash, Structural)]
pub struct Symbol(pub u32);

/// Compare two string slices by content.
pub fn str_eq(a: &str, b: &str) -> (r: bool)
    ensures
        r == (a@ == b@),
{
    let a_len = a.unicode_len();
    let b_len = b.unicode_len();
    if a_len != b_len {
        return false;
    }
    let mut i: usize = 0;
    while i < a_len
        invariant
            i <= a_len,
            a_len == a@.len(),
            a_len == b@.len(),
            forall|j: int| 0 <= j < i ==> a@[j] == b@[j],
        decreases a_len - i,
    {
        if a.get_char(i) != b.get_char(i) {
            return false;
        }
        i = i + 1;
    }
    proof {
        assert(a@ =~= b@);
    }
    true
}

/// The smallest index whose entry reads `s`, or `-1` when no entry does.
pub open spec fn find_interned(names: Seq<Seq<char>>, s: Seq<char>) -> int
    decreases names.len(),
{
    if names.len() == 0 {
        -1
    } else if names[0] == s {
        0
    } else {
        let rest = find_interned(names.skip(1), s);
        if rest == -1 {
            -1
        } else {
            rest + 1
        }
    }
}

pub proof fn lemma_find_interned(names: Seq<Seq<char>>, s: Seq<char>)
    ensures
        find_interned(names, s) == -1 ==> forall|j: int|
            0 <= j < names.len() ==> names[j] != s,
        find_interned(names, s) != -1 ==> {
            let k = find_interned(names, s);
            &&& 0 <= k < names.len()
            &&& names[k] == s
            &&& forall|j: int| 0 <= j < k ==> names[j] != s
        },
    decreases names.len(),
{
    if names.len() > 0 && names[0] != s {
        lemma_find_interned(names.skip(1), s);
        assert(forall|j: int|
            1 <= j < names.len() ==> names[j] == names.skip(1)[j - 1]);
    }
}

/// Deduplicates strings: each distinct piece of text is stored once and
/// addressed by the `Symbol` of its first occurrence.
pub struct Interner {
    strings: Vec<String>,
}

impl View for Interner {
    type V = Seq<Seq<char>>;

    closed spec fn view(&self) -> Seq<Seq<char>> {
        self.strings@.map(|i: int, s: String| s@)
    }
}

impl Symbol {
    pub fn new(idx: u32) -> (r: Symbol)
        ensures
            r == Symbol(idx),
    {
        Symbol(idx)
    }

    pub fn as_usize(self) -> (r: usize)
        ensures
            r == self.0 as usize,
    {
        self.0 as usize
    }

    /// Add `string` to the interner and return its handle.
    pub fn intern(string: &str, interner: &mut Interner) -> (r: Symbol)
        requires
            old(interner)@.len() < u32::MAX,
        ensures
            final(interner).intern_post(*old(interner), string@, r),
    {
        interner.intern(string)
    }

    /// Retrieve a copy of the interned text behind this handle.
    pub fn as_str(self, interner: &Interner) -> (r: String)
        requires
            self.0 < interner@.len(),
        ensures
            r@ == interner@[self.0 as int],
    {
        interner.get(self).clone()
    }
}

impl Interner {
    /// Create an interner that already holds the given strings, in order.
    pub fn prefill(init: Vec<String>) -> (r: Interner)
        ensures
            r@ == init@.map(|i: int, s: String| s@),
    {
        Interner { strings: init }
    }

    pub fn new() -> (r: Interner)
        ensures
            r@ == Seq::<Seq<char>>::empty(),
    {
        let r = Interner { strings: Vec::new() };
        proof {
            assert(r@ =~= Seq::<Seq<char>>::empty());
        }
        r
    }

    /// Create an empty interner sized for roughly `cap` strings.
    pub fn with_capacity(cap: usize) -> (r: Interner)
        ensures
            r@ == Seq::<Seq<char>>::empty(),
    {
        let r = Interner { strings: Vec::with_capacity(cap) };
        proof {
            assert(r@ =~= Seq::<Seq<char>>::empty());
        }
        r
    }

    /// Create an interner preloaded with the primitive type names, so
    /// that `SYM_BOOL`, `SYM_UINT8`, ... denote the corresponding text.
    pub fn with_primitives() -> (r: Interner)
        ensures
            r@.len() == PRIMITIVE_SYMS,
            r@[SYM_BOOL as int] == "bool"@,
            r@[SYM_UINT8 as int] == "uint8"@,
            r@[SYM_UINT8 + 1] == "uint16"@,
            r@[SYM_UINT8 + 2] == "uint32"@,
            r@[SYM_UINT8 + 3] == "uint64"@,
            r@[SYM_INT8 as int] == "int8"@,
            r@[SYM_INT8 + 1] == "int16"@,
            r@[SYM_INT8 + 2] == "int32"@,
            r@[SYM_INT8 + 3] == "int64"@,
            r@[SYM_U8 as int] == "u8"@,
            r@[SYM_U8 + 1] == "u16"@,
            r@[SYM_U8 + 2] == "u32"@,
            r@[SYM_U8 + 3] == "u64"@,
            r@[SYM_S8 as int] == "s8"@,
            r@[SYM_S8 + 1] == "s16"@,
            r@[SYM_S8 + 2] == "s32"@,
            r@[SYM_S8 + 3] == "s64"@,
    {
        let mut strings: Vec<String> = Vec::new();
        strings.push(String::from_str("bool"));
        strings.push(String::from_str("uint8"));
        strings.push(String::from_str("uint16"));
        strings.push(String::from_str("uint32"));
        strings.push(String::from_str("uint64"));
        strings.push(String::from_str("int8"));
        strings.push(String::from_str("int16"));
        strings.push(String::from_str("int32"));
        strings.push(String::from_str("int64"));
        strings.push(String::from_str("u8"));
        strings.push(String::from_str("u16"));
        strings.push(String::from_str("u32"));
        strings.push(String::from_str("u64"));
        strings.push(String::from_str("s8"));
        strings.push(String::from_str("s16"));
        strings.push(String::from_str("s32"));
        strings.push(String::from_str("s64"));
        Interner { strings }
    }

    /// The number of interned strings.
    pub fn len(&self) -> (r: usize)
        ensures
            r == self@.len(),
    {
        self.strings.len()
    }

    /// Retrieve the interned text behind `symbol`.
    pub fn get(&self, symbol: Symbol) -> (r: &String)
        requires
            symbol.0 < self@.len(),
        ensures
            r@ == self@[symbol.0 as int],
    {
        &self.strings[symbol.0 as usize]
    }

    /// What `intern` promises: the handle of the first occurrence of
    /// `s`, with `s` appended only when it was not present.
    pub open spec fn intern_post(self, pre: Interner, s: Seq<char>, r: Symbol) -> bool {
        let k = find_interned(pre@, s);
        &&& r.0 < self@.len()
        &&& self@[r.0 as int] == s
        &&& forall|j: int| 0 <= j < r.0 ==> self@[j] != s
        &&& if k == -1 {
            self@ == pre@.push(s) && r.0 == pre@.len()
        } else {
            self@ == pre@ && r.0 == k
        }
    }

    /// Return the handle of `string`, interning it first when new.
    pub fn intern(&mut self, string: &str) -> (r: Symbol)
        requires
            old(self)@.len() < u32::MAX,
        ensures
            final(self).intern_post(*old(self), string@, r),
    {
        proof {
            lemma_find_interned(self@, string@);
        }
        let n = self.strings.len();
        let mut i: usize = 0;
        while i < n
            invariant
                i <= n,
                *self == *old(self),
                n == self@.len(),
                n == self.strings@.len(),
                n < u32::MAX,
                forall|j: int| 0 <= j < i ==> self@[j] != string@,
            decreases n - i,
        {
            if str_eq(self.strings[i].as_str(), string) {
                proof {
                    lemma_find_interned(self@, string@);
                    assert(self@[i as int] == string@);
                    assert(find_interned(self@, string@) == i as int);
                }
                return Symbol(i as u32);
            }
            i = i + 1;
        }
        let ghost pre = *self;
        self.strings.push(String::from_str(string));
        proof {
            assert(self@ =~= pre@.push(string@));
        }
        Symbol(n as u32)
    }
}

} // verus!
