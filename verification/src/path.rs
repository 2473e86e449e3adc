//! File paths: the bytes that name a file, read as components.
use vstd::prelude::*;

use crate::ordered::{Key, Placement, Record};
use crate::{ordered, text};

verus! {

/// `core::str::Utf8Error`, which says where bytes stop being UTF-8.
#[verifier::external_type_specification]
#[verifier::external_body]
pub struct ExUtf8Error(core::str::Utf8Error);

/// `core::str::from_utf8`: the bytes as a string, exactly if they are UTF-8.
pub assume_specification[ core::str::from_utf8 ](v: &[u8]) -> (r: Result<
    &str,
    core::str::Utf8Error,
>)
    ensures
        r is Ok <==> vstd::utf8::valid_utf8(v@),
        r matches Ok(s) ==> vstd::utf8::encode_utf8(s@) == v@,
;

/// The text that `String::from_utf8_lossy` reads from bytes.
pub uninterp spec fn lossy(bytes: Seq<u8>) -> Seq<char>;

/// `String::from_utf8_lossy`: the bytes as text, with each run of bytes that is
/// not UTF-8 replaced. The result depends on the bytes alone; bytes that are
/// UTF-8 come back as the text that they encode.
#[verifier::external_body]
fn from_utf8_lossy(bytes: &[u8]) -> (r: String)
    ensures
        r@ == lossy(bytes@),
        vstd::utf8::valid_utf8(bytes@) ==> r@ == vstd::utf8::decode_utf8(bytes@),
{
    String::from_utf8_lossy(bytes).into_owned()
}

/// Bytes read as text: what they encode if they are UTF-8, else what is left
/// with the rest replaced.
pub open spec fn text_in(bytes: Seq<u8>) -> Seq<char> {
    if vstd::utf8::valid_utf8(bytes) {
        vstd::utf8::decode_utf8(bytes)
    } else {
        lossy(bytes)
    }
}

/// Reads bytes as text, with what is not UTF-8 replaced.
pub fn read_text(bytes: &[u8]) -> (r: String)
    ensures
        r@ == text_in(bytes@),
{
    from_utf8_lossy(bytes)
}

// ---------------------------------------------------------------------------
// Components
// ---------------------------------------------------------------------------

/// The separator.
pub open spec fn slash() -> u8 {
    0x2f
}

/// The component that stands for the root.
pub open spec fn root() -> Seq<u8> {
    seq![0x2fu8]
}

/// The component that stands for the current directory.
pub open spec fn here() -> Seq<u8> {
    seq![0x2eu8]
}

/// The component that stands for the parent directory.
pub open spec fn up() -> Seq<u8> {
    seq![0x2eu8, 0x2eu8]
}

/// The pieces between the separators.
pub open spec fn pieces(s: Seq<u8>) -> Seq<Seq<u8>>
    decreases s.len(),
{
    if s.len() == 0 {
        seq![Seq::empty()]
    } else {
        let before = pieces(s.drop_last());
        if s.last() == slash() {
            before.push(Seq::empty())
        } else {
            before.drop_last().push(before.last().push(s.last()))
        }
    }
}

/// Whether a piece is a component: empty pieces are not, and a piece `.` only
/// as the first.
pub open spec fn counts(piece: Seq<u8>, i: int) -> bool {
    piece.len() > 0 && (piece != here() || i == 0)
}

/// The components among the pieces.
pub open spec fn kept(pieces: Seq<Seq<u8>>) -> Seq<Seq<u8>>
    decreases pieces.len(),
{
    if pieces.len() == 0 {
        Seq::empty()
    } else {
        let before = kept(pieces.drop_last());
        if counts(pieces.last(), pieces.len() - 1) {
            before.push(pieces.last())
        } else {
            before
        }
    }
}

/// The components of a path: the root, if the path starts with a separator, and
/// the names between the separators.
pub open spec fn components(s: Seq<u8>) -> Seq<Seq<u8>> {
    let names = kept(pieces(s));
    if s.len() > 0 && s[0] == slash() {
        seq![root()] + names
    } else {
        names
    }
}

/// Whether a component names a file: it is not the root, `.` or `..`.
pub open spec fn names_file(c: Seq<u8>) -> bool {
    c != root() && c != here() && c != up()
}

/// The file name of a path: its last component, if that names a file.
pub open spec fn file_name(s: Seq<u8>) -> Option<Seq<u8>> {
    let c = components(s);
    if c.len() > 0 && names_file(c.last()) {
        Some(c.last())
    } else {
        None
    }
}

/// Whether `parent` is the parent of `s`: its components are those of `s` but
/// the last, which is not the root.
pub open spec fn is_parent(parent: Seq<u8>, s: Seq<u8>) -> bool {
    let c = components(s);
    c.len() > 0 && c.last() != root() && c.drop_last() == components(parent)
}

/// A path with another appended: an absolute one replaces it.
pub open spec fn joined(s: Seq<u8>, tail: Seq<u8>) -> Seq<u8> {
    if tail.len() > 0 && tail[0] == slash() {
        tail
    } else if s.len() > 0 && s.last() != slash() {
        s.push(slash()) + tail
    } else {
        s + tail
    }
}

proof fn lemma_pieces_more(s: Seq<u8>, tail: Seq<u8>)
    requires
        !tail.contains(slash()),
    ensures
        pieces(s).len() > 0,
        pieces(s + tail) == pieces(s).drop_last().push(pieces(s).last() + tail),
    decreases s.len() + tail.len(),
{
    if tail.len() == 0 {
        if s.len() > 0 {
            lemma_pieces_more(s.drop_last(), tail);
        }
        assert(s + tail == s);
        assert(pieces(s).last() + tail == pieces(s).last());
        assert(pieces(s).drop_last().push(pieces(s).last()) =~= pieces(s));
    } else {
        let front = tail.drop_last();
        assert forall|i: int| 0 <= i < front.len() implies #[trigger] front[i] != slash() by {
            assert(tail.contains(tail[i]));
        }
        lemma_pieces_more(s, front);
        assert(tail.contains(tail[tail.len() - 1]));
        assert((s + tail).drop_last() == s + front);
        assert((pieces(s).last() + front).push(tail.last()) =~= pieces(s).last() + tail);
        assert(pieces(s + front).drop_last() =~= pieces(s).drop_last());
    }
}

/// Appending a name appends one component: the name.
pub proof fn law_joined_name_is_last(s: Seq<u8>, name: Seq<u8>)
    requires
        name.len() > 0,
        name != here(),
        !name.contains(slash()),
    ensures
        components(joined(s, name)) == components(s).push(name),
{
    assert(name.contains(name[0]));
    let none = Seq::<u8>::empty();
    assert(!none.contains(slash()));
    lemma_pieces_more(s, none);
    let start = if s.len() > 0 && s.last() != slash() {
        s.push(slash())
    } else {
        s
    };
    assert(joined(s, name) == start + name);
    assert(s.push(slash()).drop_last() == s);
    lemma_pieces_more(start, name);
    let before = pieces(start);
    assert(before.last() == none);
    assert(none + name == name);
    let after = before.drop_last().push(name);
    assert(pieces(joined(s, name)) == after);
    assert(after.drop_last() == before.drop_last());
    assert(kept(before) == kept(before.drop_last()));
    if start != s {
        assert(before.drop_last() == pieces(s));
    }
    assert(kept(after) == kept(pieces(s)).push(name));
    if s.len() > 0 {
        assert(joined(s, name)[0] == s[0]);
    } else {
        assert(joined(s, name)[0] == name[0]);
    }
    assert(components(joined(s, name)) =~= components(s).push(name));
}

/// The order of components: the root, `.`, `..`, then the names.
pub open spec fn component_class(c: Seq<u8>) -> int {
    if c == root() {
        0
    } else if c == here() {
        1
    } else if c == up() {
        2
    } else {
        3
    }
}

/// The order of bytes.
pub open spec fn byte_order() -> spec_fn(u8, u8) -> bool {
    |a: u8, b: u8| a < b
}

/// The order of components.
pub open spec fn component_order() -> spec_fn(Seq<u8>, Seq<u8>) -> bool {
    |a: Seq<u8>, b: Seq<u8>|
        component_class(a) < component_class(b) || (component_class(a) == component_class(b)
            && ordered::lex(a, b, byte_order()))
}

proof fn lemma_component_order()
    ensures
        ordered::strict_order(component_order()),
{
    ordered::lemma_lex_order(byte_order());
    let lt = component_order();
    let bytes = ordered::lex_order(byte_order());
    assert forall|a: Seq<u8>| !#[trigger] lt(a, a) by {
        assert(!bytes(a, a));
    }
    assert forall|a: Seq<u8>, b: Seq<u8>, c: Seq<u8>|
        #[trigger] lt(a, b) && #[trigger] lt(b, c) implies lt(a, c) by {
        if component_class(a) == component_class(b) && component_class(b) == component_class(c) {
            assert(bytes(a, b) && bytes(b, c));
            assert(bytes(a, c));
        }
    }
    assert forall|a: Seq<u8>, b: Seq<u8>|
        #![trigger lt(a, b)]
        a == b || lt(a, b) || lt(b, a) by {
        assert(a == b || bytes(a, b) || bytes(b, a));
    }
}

/// The byte sequences held by a vector of byte vectors.
pub open spec fn byte_seqs(v: Seq<Vec<u8>>) -> Seq<Seq<u8>> {
    Seq::new(v.len(), |i: int| v[i]@)
}

/// Whether two runs of bytes are the same.
pub(crate) fn same_bytes(a: &[u8], b: &[u8]) -> (r: bool)
    ensures
        r == (a@ == b@),
{
    if a.len() != b.len() {
        return false;
    }
    let mut i: usize = 0;
    while i < a.len()
        invariant
            i <= a@.len(),
            a@.len() == b@.len(),
            forall|k: int| 0 <= k < i ==> a@[k] == b@[k],
        decreases a@.len() - i,
    {
        if a[i] != b[i] {
            return false;
        }
        i += 1;
    }
    assert(a@ =~= b@);
    true
}

/// A copy of bytes.
pub(crate) fn copy_bytes(a: &[u8]) -> (r: Vec<u8>)
    ensures
        r@ == a@,
{
    let mut r: Vec<u8> = Vec::new();
    let mut i: usize = 0;
    while i < a.len()
        invariant
            i <= a@.len(),
            r@ == a@.take(i as int),
        decreases a@.len() - i,
    {
        r.push(a[i]);
        i += 1;
        assert(a@.take(i as int) == a@.take(i - 1).push(a@[i - 1]));
    }
    assert(a@.take(i as int) == a@);
    r
}

fn pieces_of(s: &Vec<u8>) -> (r: Vec<Vec<u8>>)
    ensures
        byte_seqs(r@) == pieces(s@),
{
    let mut r: Vec<Vec<u8>> = Vec::new();
    let mut piece: Vec<u8> = Vec::new();
    let mut i: usize = 0;
    assert(byte_seqs(r@).push(piece@) == pieces(s@.take(0)));
    while i < s.len()
        invariant
            i <= s.len(),
            byte_seqs(r@).push(piece@) == pieces(s@.take(i as int)),
        decreases s.len() - i,
    {
        let b: u8 = s[i];
        let ghost before = byte_seqs(r@).push(piece@);
        let ghost done = r@;
        let ghost open_piece = piece@;
        assert(s@.take(i + 1).drop_last() == s@.take(i as int));
        assert(s@.take(i + 1).last() == b);
        if b == 0x2f {
            r.push(piece);
            piece = Vec::new();
            assert(byte_seqs(r@) == byte_seqs(done).push(open_piece));
            assert(byte_seqs(r@).push(piece@) == before.push(Seq::empty()));
        } else {
            piece.push(b);
            assert(before.drop_last() == byte_seqs(r@));
            assert(byte_seqs(r@).push(piece@) == before.drop_last().push(before.last().push(b)));
        }
        i += 1;
    }
    assert(s@.take(i as int) == s@);
    let ghost done = r@;
    let ghost open_piece = piece@;
    r.push(piece);
    assert(byte_seqs(r@) == byte_seqs(done).push(open_piece));
    r
}

fn is_here(c: &Vec<u8>) -> (r: bool)
    ensures
        r == (c@ == here()),
{
    let r = c.len() == 1 && c[0] == 0x2e;
    assert(r ==> c@ =~= here());
    assert(c@ == here() ==> c@[0] == 0x2e);
    r
}

fn is_root(c: &Vec<u8>) -> (r: bool)
    ensures
        r == (c@ == root()),
{
    let r = c.len() == 1 && c[0] == 0x2f;
    assert(r ==> c@ =~= root());
    assert(c@ == root() ==> c@[0] == 0x2f);
    r
}

fn is_up(c: &Vec<u8>) -> (r: bool)
    ensures
        r == (c@ == up()),
{
    let r = c.len() == 2 && c[0] == 0x2e && c[1] == 0x2e;
    assert(r ==> c@ =~= up());
    assert(c@ == up() ==> c@[0] == 0x2e && c@[1] == 0x2e);
    r
}

fn components_of(s: &Vec<u8>) -> (r: Vec<Vec<u8>>)
    ensures
        byte_seqs(r@) == components(s@),
{
    let all = pieces_of(s);
    let ghost seqs = pieces(s@);
    let mut r: Vec<Vec<u8>> = Vec::new();
    let ghost mut start: Seq<Seq<u8>> = Seq::empty();
    if s.len() > 0 && s[0] == 0x2f {
        let mut c: Vec<u8> = Vec::new();
        c.push(0x2f);
        assert(c@ == root());
        r.push(c);
        proof {
            start = seq![root()];
        }
    }
    assert(byte_seqs(r@) == start);
    let mut i: usize = 0;
    assert(start + kept(seqs.take(0)) == start);
    while i < all.len()
        invariant
            i <= all.len(),
            seqs == byte_seqs(all@),
            byte_seqs(r@) == start + kept(seqs.take(i as int)),
        decreases all.len() - i,
    {
        let piece = &all[i];
        assert(seqs[i as int] == piece@);
        assert(seqs.take(i + 1).drop_last() == seqs.take(i as int));
        assert(seqs.take(i + 1).last() == piece@);
        let ghost done = r@;
        if piece.len() > 0 && (i == 0 || !is_here(piece)) {
            r.push(copy_bytes(piece.as_slice()));
            assert(byte_seqs(r@) == byte_seqs(done).push(piece@));
            assert(byte_seqs(r@) == start + kept(seqs.take(i as int)).push(piece@));
        }
        i += 1;
    }
    assert(seqs.take(i as int) == seqs);
    r
}

fn same_components(a: &Vec<Vec<u8>>, b: &Vec<Vec<u8>>, n: usize) -> (r: bool)
    requires
        n <= a.len(),
        n <= b.len(),
    ensures
        r == (byte_seqs(a@).take(n as int) == byte_seqs(b@).take(n as int)),
{
    let mut i: usize = 0;
    while i < n
        invariant
            i <= n <= a.len(),
            n <= b.len(),
            forall|k: int| 0 <= k < i ==> a@[k]@ == b@[k]@,
        decreases n - i,
    {
        if !same_bytes(a[i].as_slice(), b[i].as_slice()) {
            proof {
                assert(byte_seqs(a@).take(n as int)[i as int] == a@[i as int]@);
                assert(byte_seqs(b@).take(n as int)[i as int] == b@[i as int]@);
            }
            return false;
        }
        i += 1;
    }
    assert(byte_seqs(a@).take(n as int) =~= byte_seqs(b@).take(n as int));
    true
}

fn place_bytes(a: &Vec<u8>, b: &Vec<u8>) -> (r: Placement)
    ensures
        match r {
            Placement::Before => ordered::lex(a@, b@, byte_order()),
            Placement::Same => a@ == b@,
            Placement::After => ordered::lex(b@, a@, byte_order()),
        },
{
    let mut i: usize = 0;
    proof {
        assert(a@.skip(0) == a@);
        assert(b@.skip(0) == b@);
    }
    while i < a.len() && i < b.len()
        invariant
            i <= a.len(),
            i <= b.len(),
            a@.take(i as int) == b@.take(i as int),
            ordered::lex(a@, b@, byte_order()) == ordered::lex(
                a@.skip(i as int),
                b@.skip(i as int),
                byte_order(),
            ),
            ordered::lex(b@, a@, byte_order()) == ordered::lex(
                b@.skip(i as int),
                a@.skip(i as int),
                byte_order(),
            ),
        decreases a.len() - i,
    {
        if a[i] < b[i] {
            return Placement::Before;
        }
        if a[i] > b[i] {
            return Placement::After;
        }
        proof {
            assert(a@.skip(i as int).skip(1) == a@.skip(i + 1));
            assert(b@.skip(i as int).skip(1) == b@.skip(i + 1));
            assert(a@.take(i + 1) == a@.take(i as int).push(a@[i as int]));
            assert(b@.take(i + 1) == b@.take(i as int).push(b@[i as int]));
        }
        i += 1;
    }
    if i < b.len() {
        Placement::Before
    } else if i < a.len() {
        Placement::After
    } else {
        assert(a@.take(i as int) == a@);
        assert(b@.take(i as int) == b@);
        Placement::Same
    }
}

fn class_of(c: &Vec<u8>) -> (r: u8)
    ensures
        r == component_class(c@),
{
    if is_root(c) {
        0
    } else if is_here(c) {
        1
    } else if is_up(c) {
        2
    } else {
        3
    }
}

fn place_component(a: &Vec<u8>, b: &Vec<u8>) -> (r: Placement)
    ensures
        match r {
            Placement::Before => component_order()(a@, b@),
            Placement::Same => a@ == b@,
            Placement::After => component_order()(b@, a@),
        },
{
    let x: u8 = class_of(a);
    let y: u8 = class_of(b);
    if x < y {
        Placement::Before
    } else if x > y {
        Placement::After
    } else {
        place_bytes(a, b)
    }
}

// ---------------------------------------------------------------------------
// Paths
// ---------------------------------------------------------------------------

/// A path: any bytes. Two paths are equal, and ordered, by their components.
#[derive(Debug)]
pub struct EnginePath {
    bytes: Vec<u8>,
}

/// A set of paths.
pub type PathSet = ordered::OrdSet<EnginePath>;

impl View for EnginePath {
    type V = Seq<u8>;

    closed spec fn view(&self) -> Seq<u8> {
        self.bytes@
    }
}

impl EnginePath {
    /// The components.
    pub open spec fn comps(&self) -> Seq<Seq<u8>> {
        components(self@)
    }

    /// The path that the given bytes name.
    pub fn from_bytes(bytes: Vec<u8>) -> (r: Self)
        ensures
            r@ == bytes@,
    {
        EnginePath { bytes }
    }

    /// The path that the given text names.
    pub fn new(text: &str) -> (r: Self)
        ensures
            r@ == vstd::utf8::encode_utf8(text@),
    {
        let slice = text.as_bytes();
        let mut bytes: Vec<u8> = Vec::new();
        let mut i: usize = 0;
        while i < slice.len()
            invariant
                i <= slice@.len(),
                bytes@ == slice@.take(i as int),
            decreases slice@.len() - i,
        {
            bytes.push(slice[i]);
            i += 1;
            assert(slice@.take(i as int) == slice@.take(i - 1).push(slice@[i - 1]));
        }
        assert(slice@.take(i as int) == slice@);
        EnginePath { bytes }
    }

    /// The bytes.
    pub fn as_bytes(&self) -> (r: &[u8])
        ensures
            r@ == self@,
    {
        self.bytes.as_slice()
    }

    /// Whether the path holds no byte.
    pub fn is_empty(&self) -> (r: bool)
        ensures
            r == (self@.len() == 0),
    {
        self.bytes.len() == 0
    }

    /// Whether both paths have the same components.
    pub fn same_as(&self, other: &EnginePath) -> (r: bool)
        ensures
            r == (self.comps() == other.comps()),
    {
        let a = components_of(&self.bytes);
        let b = components_of(&other.bytes);
        if a.len() != b.len() {
            return false;
        }
        proof {
            assert(byte_seqs(a@).take(a@.len() as int) == byte_seqs(a@));
            assert(byte_seqs(b@).take(b@.len() as int) == byte_seqs(b@));
        }
        same_components(&a, &b, a.len())
    }

    /// Whether the other path is this path's parent.
    pub fn has_parent(&self, parent: &EnginePath) -> (r: bool)
        ensures
            r == is_parent(parent@, self@),
    {
        let c = components_of(&self.bytes);
        let p = components_of(&parent.bytes);
        let n: usize = c.len();
        assert(self.comps().len() == n && parent.comps().len() == p.len());
        if n == 0 || p.len() != n - 1 {
            return false;
        }
        proof {
            assert(self.comps().last() == c@[n - 1]@);
            assert(byte_seqs(c@).take(n - 1) == self.comps().drop_last());
            assert(byte_seqs(p@).take(n - 1) == parent.comps());
        }
        if is_root(&c[n - 1]) {
            return false;
        }
        same_components(&c, &p, n - 1)
    }

    /// The file name: the last component, if it names a file.
    pub fn file_name(&self) -> (r: Option<Vec<u8>>)
        ensures
            match r {
                Some(name) => file_name(self@) == Some(name@),
                None => file_name(self@) is None,
            },
    {
        let c = components_of(&self.bytes);
        let n: usize = c.len();
        if n == 0 {
            return None;
        }
        assert(self.comps().last() == c@[n - 1]@);
        if is_root(&c[n - 1]) || is_here(&c[n - 1]) || is_up(&c[n - 1]) {
            None
        } else {
            Some(copy_bytes(c[n - 1].as_slice()))
        }
    }

    /// The path with a relative one appended; an absolute one replaces it.
    pub fn join(&self, tail: &str) -> (r: EnginePath)
        ensures
            r@ == joined(self@, vstd::utf8::encode_utf8(tail@)),
    {
        let tail = EnginePath::new(tail);
        if tail.bytes.len() > 0 && tail.bytes[0] == 0x2f {
            return tail;
        }
        let mut bytes = copy_bytes(self.bytes.as_slice());
        let n: usize = bytes.len();
        if n > 0 && bytes[n - 1] != 0x2f {
            bytes.push(0x2f);
        }
        let ghost head = bytes@;
        let mut i: usize = 0;
        assert(head + tail@.take(0) == head);
        while i < tail.bytes.len()
            invariant
                i <= tail.bytes.len(),
                bytes@ == head + tail@.take(i as int),
            decreases tail.bytes.len() - i,
        {
            bytes.push(tail.bytes[i]);
            i += 1;
            assert(tail@.take(i as int) == tail@.take(i - 1).push(tail@[i - 1]));
            assert(head + tail@.take(i as int) == (head + tail@.take(i - 1)).push(tail@[i - 1]));
        }
        assert(tail@.take(i as int) == tail@);
        EnginePath { bytes }
    }

    /// The path as text, if its bytes are UTF-8.
    pub fn to_text(&self) -> (r: Option<String>)
        ensures
            match r {
                Some(s) => vstd::utf8::valid_utf8(self@) && s@ == vstd::utf8::decode_utf8(self@),
                None => !vstd::utf8::valid_utf8(self@),
            },
    {
        text_of(self.bytes.as_slice())
    }

    /// The path as text, with what is not UTF-8 replaced.
    pub fn to_text_lossy(&self) -> (r: String)
        ensures
            r@ == text_in(self@),
    {
        read_text(self.bytes.as_slice())
    }
}

/// The components of paths.
pub open spec fn comps_of(s: Seq<EnginePath>) -> Seq<Seq<Seq<u8>>> {
    Seq::new(s.len(), |i: int| s[i].comps())
}

/// Bytes as text, if they are UTF-8.
pub fn text_of(bytes: &[u8]) -> (r: Option<String>)
    ensures
        match r {
            Some(s) => vstd::utf8::valid_utf8(bytes@) && s@ == vstd::utf8::decode_utf8(bytes@),
            None => !vstd::utf8::valid_utf8(bytes@),
        },
{
    match core::str::from_utf8(bytes) {
        Ok(s) => {
            proof {
                vstd::utf8::encode_utf8_decode_utf8(s@);
            }
            Some(s.to_owned())
        },
        Err(_) => None,
    }
}

impl PartialEq for EnginePath {
    fn eq(&self, other: &Self) -> (r: bool) {
        self.same_as(other)
    }
}

impl vstd::std_specs::cmp::PartialEqSpecImpl for EnginePath {
    open spec fn obeys_eq_spec() -> bool {
        true
    }

    open spec fn eq_spec(&self, other: &Self) -> bool {
        self.comps() == other.comps()
    }
}

impl Eq for EnginePath {

}

impl Clone for EnginePath {
    fn clone(&self) -> (r: Self)
        ensures
            r@ == self@,
    {
        EnginePath { bytes: copy_bytes(self.bytes.as_slice()) }
    }
}

impl Record for EnginePath {
    type Model = Seq<u8>;

    open spec fn model(&self) -> Seq<u8> {
        self@
    }

    fn duplicate(&self) -> (r: Self) {
        self.clone()
    }
}

impl Key for EnginePath {
    type Name = Seq<Seq<u8>>;

    open spec fn name(m: Seq<u8>) -> Seq<Seq<u8>> {
        components(m)
    }

    open spec fn order() -> spec_fn(Seq<Seq<u8>>, Seq<Seq<u8>>) -> bool {
        ordered::lex_order(component_order())
    }

    proof fn order_laws() {
        lemma_component_order();
        ordered::lemma_lex_order(component_order());
    }

    fn place(&self, other: &Self) -> (r: Placement) {
        let a = components_of(&self.bytes);
        let b = components_of(&other.bytes);
        let ghost x = byte_seqs(a@);
        let ghost y = byte_seqs(b@);
        let mut i: usize = 0;
        proof {
            lemma_component_order();
            assert(x.skip(0) == x);
            assert(y.skip(0) == y);
        }
        while i < a.len() && i < b.len()
            invariant
                i <= a.len(),
                i <= b.len(),
                x == byte_seqs(a@),
                y == byte_seqs(b@),
                x == self.comps(),
                y == other.comps(),
                ordered::strict_order(component_order()),
                x.take(i as int) == y.take(i as int),
                ordered::lex(x, y, component_order()) == ordered::lex(
                    x.skip(i as int),
                    y.skip(i as int),
                    component_order(),
                ),
                ordered::lex(y, x, component_order()) == ordered::lex(
                    y.skip(i as int),
                    x.skip(i as int),
                    component_order(),
                ),
            decreases a.len() - i,
        {
            assert(x[i as int] == a@[i as int]@);
            assert(y[i as int] == b@[i as int]@);
            assert(x.skip(i as int)[0] == x[i as int]);
            assert(y.skip(i as int)[0] == y[i as int]);
            assert(!component_order()(x[i as int], x[i as int]));
            match place_component(&a[i], &b[i]) {
                Placement::Before => {
                    return Placement::Before;
                },
                Placement::After => {
                    return Placement::After;
                },
                Placement::Same => {},
            }
            proof {
                assert(x.skip(i as int).skip(1) == x.skip(i + 1));
                assert(y.skip(i as int).skip(1) == y.skip(i + 1));
                assert(x.take(i + 1) == x.take(i as int).push(x[i as int]));
                assert(y.take(i + 1) == y.take(i as int).push(y[i as int]));
            }
            i += 1;
        }
        if i < b.len() {
            Placement::Before
        } else if i < a.len() {
            Placement::After
        } else {
            assert(x.take(i as int) == x);
            assert(y.take(i as int) == y);
            Placement::Same
        }
    }
}

proof fn lemma_pieces_have_no_slash(s: Seq<u8>, i: int)
    requires
        0 <= i < pieces(s).len(),
    ensures
        !pieces(s)[i].contains(slash()),
    decreases s.len(),
{
    let none = Seq::<u8>::empty();
    assert(!none.contains(slash()));
    lemma_pieces_more(s, none);
    if s.len() > 0 {
        let before = pieces(s.drop_last());
        lemma_pieces_more(s.drop_last(), none);
        if i < before.len() {
            lemma_pieces_have_no_slash(s.drop_last(), i);
        }
        if s.last() != slash() && i == before.len() - 1 {
            let piece = pieces(s)[i];
            assert(piece =~= before.last().push(s.last()));
            if piece.contains(slash()) {
                let k = choose|k: int| 0 <= k < piece.len() && piece[k] == slash();
                assert(before.last()[k] == slash());
                assert(before.last().contains(slash()));
            }
        }
    }
}

proof fn lemma_kept_have_no_slash(all: Seq<Seq<u8>>, i: int)
    requires
        forall|k: int| 0 <= k < all.len() ==> !(#[trigger] all[k]).contains(slash()),
        0 <= i < kept(all).len(),
    ensures
        !kept(all)[i].contains(slash()),
        kept(all)[i].len() > 0,
    decreases all.len(),
{
    if all.len() > 0 {
        let front = all.drop_last();
        assert forall|k: int| 0 <= k < front.len() implies !(#[trigger] front[k]).contains(
            slash(),
        ) by {
            assert(front[k] == all[k]);
        }
        if i < kept(front).len() {
            lemma_kept_have_no_slash(front, i);
        } else {
            assert(all[all.len() - 1] == all.last());
        }
    }
}

/// An absolute path starts with the root; a relative one has it nowhere. The other
/// components are not empty and hold no separator.
pub proof fn law_components_are_names(s: Seq<u8>, i: int)
    requires
        s.len() > 0,
        0 <= i < components(s).len(),
    ensures
        s[0] == slash() ==> components(s)[0] == seq![0x2fu8],
        (s[0] != slash() || i > 0) ==> components(s)[i].len() > 0 && forall|k: int|
            0 <= k < components(s)[i].len() ==> #[trigger] components(s)[i][k] != slash(),
        (s[0] != slash() || i > 0) ==> components(s)[i] != root(),
{
    let names = kept(pieces(s));
    assert forall|k: int| 0 <= k < pieces(s).len() implies !(#[trigger] pieces(s)[k]).contains(
        slash(),
    ) by {
        lemma_pieces_have_no_slash(s, k);
    }
    let absolute = s.len() > 0 && s[0] == slash();
    if !absolute || i > 0 {
        let j = if absolute {
            i - 1
        } else {
            i
        };
        assert(components(s)[i] == names[j]);
        lemma_kept_have_no_slash(pieces(s), j);
        let name = names[j];
        assert forall|k: int| 0 <= k < name.len() implies #[trigger] name[k] != slash() by {
            assert(name.contains(name[k]));
        }
        if name == root() {
            assert(name[0] == slash());
        }
    }
}

/// A separator at the end of a path makes no difference, and neither does a `.` that
/// is appended to it.
pub proof fn law_ends_without_meaning(s: Seq<u8>)
    requires
        s.len() > 0,
    ensures
        components(s.push(slash())) == components(s),
        components(joined(s, here())) == components(s),
{
    let none = Seq::<u8>::empty();
    assert(!none.contains(slash()));
    lemma_pieces_more(s, none);
    let long = s.push(slash());
    assert(long.drop_last() =~= s);
    assert(pieces(long) =~= pieces(s).push(none));
    assert(pieces(long).drop_last() =~= pieces(s));
    assert(long[0] == s[0]);
    assert(components(long) =~= components(s));
    let start = if s.last() != slash() {
        long
    } else {
        s
    };
    let dotted = joined(s, here());
    assert(dotted =~= start + here());
    assert(!here().contains(slash()));
    lemma_pieces_more(start, here());
    let before = pieces(start);
    if start == s {
        assert(before.last() =~= none);
    }
    assert(none + here() =~= here());
    let after = before.drop_last().push(here());
    assert(pieces(dotted) =~= after);
    assert(after.drop_last() =~= before.drop_last());
    if start == s {
        assert(pieces(s.drop_last()).push(none) =~= before);
        lemma_pieces_more(s.drop_last(), none);
    } else {
        assert(before.drop_last() =~= pieces(s));
    }
    assert(after.len() > 1);
    assert(kept(after) == kept(before.drop_last()));
    assert(kept(before) == kept(before.drop_last()));
    assert(dotted[0] == s[0]);
    assert(components(dotted) =~= components(start));
}

/// A name that is appended to a path is the file name of the result, whose parent is
/// the path; `..` is no file name. Only one path, by its components, is the parent of
/// another. An absolute path that is appended replaces the path.
pub proof fn law_appended_name_is_file_name(s: Seq<u8>, name: Seq<u8>, other: Seq<u8>)
    requires
        name.len() > 0,
        name != here(),
        name != up(),
        !name.contains(slash()),
    ensures
        file_name(joined(s, name)) == Some(name),
        is_parent(s, joined(s, name)),
        is_parent(other, joined(s, name)) ==> components(other) == components(s),
        file_name(joined(s, up())) is None,
        file_name(root()) is None,
        file_name(Seq::empty()) is None,
        joined(s, seq![slash()] + name) == seq![slash()] + name,
        joined(Seq::empty(), name) == name,
{
    law_joined_name_is_last(s, name);
    assert(name.contains(name[0]));
    assert(components(s).push(name).drop_last() =~= components(s));
    assert(!up().contains(slash()));
    assert(up().len() == 2 && here().len() == 1);
    law_joined_name_is_last(s, up());
    let none = Seq::<u8>::empty();
    assert(none + name =~= name);
    assert(pieces(none) =~= seq![none]);
    assert(pieces(none).drop_last() =~= Seq::<Seq<u8>>::empty());
    reveal_with_fuel(kept, 3);
    assert(kept(pieces(none)) =~= Seq::<Seq<u8>>::empty());
    let top = root();
    assert(top.drop_last() =~= none);
    assert(top.last() == slash());
    assert(pieces(top) =~= seq![none, none]);
    assert(pieces(top).drop_last() =~= seq![none]);
    assert(kept(pieces(top)) == kept(seq![none]));
    assert(components(top) =~= seq![root()]);
}

/// Bytes that encode a text are read as that text.
pub proof fn law_encoded_text_is_read(s: Seq<char>)
    ensures
        text_in(vstd::utf8::encode_utf8(s)) == s,
{
    broadcast use vstd::utf8::encode_utf8_decode_utf8;
    broadcast use vstd::utf8::encode_utf8_valid_utf8;

}

/// The root comes before `.`, that before `..`, and that before every name; names go
/// by their first byte that differs, or a name that another goes on from comes first.
pub proof fn law_order_of_components(a: Seq<u8>, b: Seq<u8>, k: int)
    requires
        names_file(a),
        names_file(b),
        0 <= k < b.len(),
        k <= a.len(),
        forall|i: int| 0 <= i < k ==> #[trigger] a[i] == b[i],
        k < a.len() ==> a[k] < b[k],
    ensures
        component_order()(root(), here()),
        component_order()(here(), up()),
        component_order()(up(), a),
        component_order()(a, b),
        !component_order()(b, a),
{
    assert(root()[0] != here()[0]);
    assert(here().len() != up().len());
    assert(root().len() != up().len());
    lemma_first_byte_decides(a, b, k);
}

proof fn lemma_first_byte_decides(a: Seq<u8>, b: Seq<u8>, k: int)
    requires
        0 <= k < b.len(),
        k <= a.len(),
        forall|i: int| 0 <= i < k ==> #[trigger] a[i] == b[i],
        k < a.len() ==> a[k] < b[k],
    ensures
        ordered::lex(a, b, byte_order()),
        !ordered::lex(b, a, byte_order()),
    decreases k,
{
    if k > 0 {
        assert(a[0] == b[0]);
        assert forall|i: int| 0 <= i < k - 1 implies #[trigger] a.skip(1)[i] == b.skip(1)[i] by {
            assert(a[i + 1] == b[i + 1]);
        }
        lemma_first_byte_decides(a.skip(1), b.skip(1), k - 1);
    }
}

/// A `.` that a path starts with is a component of its own; an empty path has none, and
/// one that is a separator alone has the root.
pub proof fn law_starts_of_paths(name: Seq<u8>)
    requires
        name.len() > 0,
        name != here(),
        !name.contains(slash()),
    ensures
        components(here()) == seq![here()],
        components(joined(here(), name)) == seq![here(), name],
        components(name) == seq![name],
        components(seq![slash()] + name) == seq![root(), name],
        components(root()) == seq![root()],
        components(Seq::empty()).len() == 0,
{
    let none = Seq::<u8>::empty();
    reveal_with_fuel(kept, 3);
    assert(pieces(none) =~= seq![none]);
    assert(seq![none].drop_last() =~= Seq::<Seq<u8>>::empty());
    assert(kept(pieces(none)) =~= Seq::<Seq<u8>>::empty());
    assert(!here().contains(slash()));
    lemma_pieces_more(none, here());
    assert(none + here() =~= here());
    assert(pieces(here()) =~= seq![here()]);
    assert(seq![here()].drop_last() =~= Seq::<Seq<u8>>::empty());
    assert(here()[0] != slash());
    assert(components(here()) =~= seq![here()]);
    law_joined_name_is_last(here(), name);
    assert(seq![here()].push(name) =~= seq![here(), name]);
    law_joined_name_is_last(none, name);
    assert(name.contains(name[0]));
    assert(joined(none, name) =~= name);
    assert(components(none) =~= Seq::<Seq<u8>>::empty());
    assert(components(name) =~= seq![name]);
    let top = root();
    assert(top.drop_last() =~= none);
    assert(top.last() == slash());
    assert(pieces(top) =~= seq![none, none]);
    assert(seq![none, none].drop_last() =~= seq![none]);
    assert(components(top) =~= seq![root()]);
    law_joined_name_is_last(top, name);
    assert(joined(top, name) =~= seq![slash()] + name);
    assert(seq![root()].push(name) =~= seq![root(), name]);
}

} // verus!
