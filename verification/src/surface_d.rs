//! The `d` attribute of `<surface>`: a sweep chain of patches between
//! `<path>` children (`M`, `L`, `Q`, `C`, `Z`) and bicubic Coons patches
//! (`P`), every argument a child index.
use vstd::prelude::*;
use vstd::string::StringSliceAdditionalSpecFns;

verus! {

/// One sweep patch. Its start row is the `M` path or the previous patch's
/// end.
#[derive(Debug, Clone, Copy, PartialEq, Eq, Structural)]
pub enum SurfacePatch {
    Linear { end: u32 },
    Quadratic { ctrl: u32, end: u32 },
    Cubic { ctrl1: u32, ctrl2: u32, end: u32 },
    Close,
}

/// A Coons patch over four single-cubic boundary paths.
#[derive(Debug, Clone, Copy, PartialEq, Eq, Structural)]
pub struct CoonsPatch {
    pub top: u32,
    pub right: u32,
    pub bottom: u32,
    pub left: u32,
}

/// A parsed surface `d`: the sweep chain `(start, patches)`, if any, and
/// the Coons patches.
#[derive(Debug, Clone, PartialEq, Eq)]
pub struct ParsedSurfaceD {
    pub sweep: Option<(u32, Vec<SurfacePatch>)>,
    pub coons: Vec<CoonsPatch>,
}

/// [`ParsedSurfaceD`] with sequences.
pub struct ParsedSurfaceDView {
    pub sweep: Option<(u32, Seq<SurfacePatch>)>,
    pub coons: Seq<CoonsPatch>,
}

impl View for ParsedSurfaceD {
    type V = ParsedSurfaceDView;

    open spec fn view(&self) -> ParsedSurfaceDView {
        ParsedSurfaceDView {
            sweep: match self.sweep {
                Some((start, patches)) => Some((start, patches@)),
                None => None,
            },
            coons: self.coons@,
        }
    }
}

/// Separators between tokens: ASCII whitespace and commas.
pub open spec fn is_separator(b: u8) -> bool {
    b == 0x20 || b == 0x09 || b == 0x0a || b == 0x0c || b == 0x0d || b == 0x2c
}

/// An ASCII decimal digit.
pub open spec fn is_digit(b: u8) -> bool {
    0x30 <= b <= 0x39
}

/// The first position at or after `pos` that is not a separator.
pub open spec fn skip_separators(s: Seq<u8>, pos: int) -> int
    decreases s.len() - pos,
{
    if 0 <= pos < s.len() && is_separator(s[pos]) {
        skip_separators(s, pos + 1)
    } else {
        pos
    }
}

/// The end of the run of digits starting at `pos`.
pub open spec fn digits_end(s: Seq<u8>, pos: int) -> int
    decreases s.len() - pos,
{
    if 0 <= pos < s.len() && is_digit(s[pos]) {
        digits_end(s, pos + 1)
    } else {
        pos
    }
}

/// The decimal value of a run of digits.
pub open spec fn decimal_value(d: Seq<u8>) -> nat
    decreases d.len(),
{
    if d.len() == 0 {
        0
    } else {
        decimal_value(d.drop_last()) * 10 + (d.last() - 0x30) as nat
    }
}

/// An index argument after `pos`: separators, then a non-empty run of
/// digits whose value fits in 32 bits. Gives the value and the position
/// after it.
pub open spec fn read_index(s: Seq<u8>, pos: int) -> Option<(u32, int)> {
    let p = skip_separators(s, pos);
    let e = digits_end(s, p);
    if e == p || decimal_value(s.subrange(p, e)) > u32::MAX {
        None
    } else {
        Some((decimal_value(s.subrange(p, e)) as u32, e))
    }
}

/// `n` index arguments after `pos`, in order, and the position after them.
pub open spec fn read_indices(s: Seq<u8>, pos: int, n: nat) -> Option<(Seq<u32>, int)>
    decreases n,
{
    if n == 0 {
        Some((Seq::empty(), pos))
    } else {
        match read_index(s, pos) {
            None => None,
            Some((v, e)) => match read_indices(s, e, (n - 1) as nat) {
                None => None,
                Some((vs, f)) => Some((seq![v] + vs, f)),
            },
        }
    }
}

/// The parser's state between commands.
pub struct DState {
    pub start: Option<u32>,
    pub patches: Seq<SurfacePatch>,
    pub coons: Seq<CoonsPatch>,
    pub seen_close: bool,
}

/// The result once the input is exhausted: an `M` needs at least one sweep
/// patch, and there must be at least one patch overall.
pub open spec fn finish_spec(st: DState) -> Option<ParsedSurfaceDView> {
    match st.start {
        Some(start) => if st.patches.len() == 0 {
            None
        } else {
            Some(ParsedSurfaceDView { sweep: Some((start, st.patches)), coons: st.coons })
        },
        None => if st.coons.len() == 0 {
            None
        } else {
            Some(ParsedSurfaceDView { sweep: None, coons: st.coons })
        },
    }
}

/// `st` with `patch` appended to the sweep chain.
pub open spec fn with_patch(st: DState, patch: SurfacePatch) -> DState {
    DState { start: st.start, patches: st.patches.push(patch), coons: st.coons, seen_close: st.seen_close }
}

/// The command whose arguments `a` were read, applied to `st`.
pub open spec fn apply_command(st: DState, cmd: u8, a: Seq<u32>) -> DState {
    if cmd == 0x4d {
        DState { start: Some(a[0]), patches: st.patches, coons: st.coons, seen_close: st.seen_close }
    } else if cmd == 0x4c {
        with_patch(st, SurfacePatch::Linear { end: a[0] })
    } else if cmd == 0x51 {
        with_patch(st, SurfacePatch::Quadratic { ctrl: a[0], end: a[1] })
    } else if cmd == 0x43 {
        with_patch(st, SurfacePatch::Cubic { ctrl1: a[0], ctrl2: a[1], end: a[2] })
    } else {
        DState {
            start: st.start,
            patches: st.patches,
            coons: st.coons.push(CoonsPatch { top: a[0], right: a[1], bottom: a[2], left: a[3] }),
            seen_close: st.seen_close,
        }
    }
}

/// Number of index arguments of a command byte; zero for an unsupported
/// command (and for `Z`, which takes none).
pub open spec fn arity(cmd: u8) -> nat {
    if cmd == 0x4d || cmd == 0x4c {
        1
    } else if cmd == 0x51 {
        2
    } else if cmd == 0x43 {
        3
    } else if cmd == 0x50 {
        4
    } else {
        0
    }
}

/// Parse the commands from `pos` on, in state `st`.
pub open spec fn run(s: Seq<u8>, pos: int, st: DState) -> Option<ParsedSurfaceDView>
    decreases s.len() - pos,
{
    let p = skip_separators(s, pos);
    if p < pos || p >= s.len() {
        finish_spec(st)
    } else if st.seen_close {
        None
    } else {
        let cmd = s[p];
        let q = p + 1;
        if cmd == 0x5a || cmd == 0x7a {
            if st.start is None {
                None
            } else {
                run(
                    s,
                    q,
                    DState { start: st.start, patches: st.patches.push(SurfacePatch::Close), coons: st.coons, seen_close: true },
                )
            }
        } else if arity(cmd) == 0 {
            None
        } else if (cmd == 0x4d && st.start is Some) || (cmd != 0x4d && cmd != 0x50 && st.start is None) {
            None
        } else {
            match read_indices(s, q, arity(cmd)) {
                None => None,
                Some((a, e)) => if e <= pos || e > s.len() {
                    None
                } else {
                    run(s, e, apply_command(st, cmd, a))
                },
            }
        }
    }
}

/// The parse of a whole `d` value, given as its UTF-8 bytes.
pub open spec fn surface_d_spec(s: Seq<u8>) -> Option<ParsedSurfaceDView> {
    run(s, 0, DState { start: None, patches: Seq::empty(), coons: Seq::empty(), seen_close: false })
}

proof fn lemma_skip_separators(s: Seq<u8>, pos: int)
    requires
        0 <= pos,
    ensures
        pos <= skip_separators(s, pos),
        skip_separators(s, pos) <= s.len() || skip_separators(s, pos) == pos,
    decreases s.len() - pos,
{
    if 0 <= pos < s.len() && is_separator(s[pos]) {
        lemma_skip_separators(s, pos + 1);
    }
}

proof fn lemma_digits_end(s: Seq<u8>, pos: int)
    requires
        0 <= pos,
    ensures
        pos <= digits_end(s, pos),
        digits_end(s, pos) <= s.len() || digits_end(s, pos) == pos,
    decreases s.len() - pos,
{
    if 0 <= pos < s.len() && is_digit(s[pos]) {
        lemma_digits_end(s, pos + 1);
    }
}

proof fn lemma_read_indices_advance(s: Seq<u8>, pos: int, n: nat)
    requires
        0 <= pos <= s.len(),
    ensures
        read_indices(s, pos, n) matches Some((vs, e)) ==> vs.len() == n && pos <= e <= s.len() && (n
            > 0 ==> pos < e),
    decreases n,
{
    if n > 0 {
        lemma_skip_separators(s, pos);
        let p = skip_separators(s, pos);
        lemma_digits_end(s, p);
        if let Some((v, e)) = read_index(s, pos) {
            lemma_read_indices_advance(s, e, (n - 1) as nat);
        }
    }
}

/// A cursor over the bytes of a `d` value.
pub struct DCursor<'a> {
    src: &'a [u8],
    pos: usize,
}

impl<'a> DCursor<'a> {
    /// The bytes being read.
    pub closed spec fn src_view(&self) -> Seq<u8> {
        self.src@
    }

    /// The current position.
    pub closed spec fn pos_view(&self) -> int {
        self.pos as int
    }

    /// A cursor at the start of `src`.
    pub fn new(src: &'a [u8]) -> (r: Self)
        ensures
            r.src_view() == src@,
            r.pos_view() == 0,
    {
        DCursor { src, pos: 0 }
    }

    /// The byte at the cursor, if any.
    pub fn peek(&self) -> (r: Option<u8>)
        ensures
            0 <= self.pos_view() < self.src_view().len() ==> r == Some(self.src_view()[self.pos_view()]),
            !(0 <= self.pos_view() < self.src_view().len()) ==> r is None,
    {
        if self.pos < self.src.len() {
            Some(self.src[self.pos])
        } else {
            None
        }
    }

    /// Take the byte at the cursor, if any.
    pub fn bump(&mut self) -> (r: Option<u8>)
        requires
            old(self).pos_view() <= old(self).src_view().len(),
        ensures
            final(self).src_view() == old(self).src_view(),
            old(self).pos_view() < old(self).src_view().len() ==> r == Some(
                old(self).src_view()[old(self).pos_view()],
            ) && final(self).pos_view() == old(self).pos_view() + 1,
            old(self).pos_view() >= old(self).src_view().len() ==> r is None && final(self).pos_view()
                == old(self).pos_view(),
    {
        if self.pos < self.src.len() {
            let b = self.src[self.pos];
            self.pos = self.pos + 1;
            Some(b)
        } else {
            None
        }
    }

    /// Whether the cursor is past the last byte.
    pub fn at_end(&self) -> (r: bool)
        ensures
            r == (self.pos_view() >= self.src_view().len()),
    {
        self.pos >= self.src.len()
    }

    /// Move past separators.
    pub fn skip_separators(&mut self)
        requires
            old(self).pos_view() <= old(self).src_view().len(),
        ensures
            final(self).src_view() == old(self).src_view(),
            final(self).pos_view() == skip_separators(old(self).src_view(), old(self).pos_view()),
            final(self).pos_view() <= final(self).src_view().len(),
    {
        let ghost start = self.pos as int;
        while self.pos < self.src.len() && is_separator_exec(self.src[self.pos])
            invariant
                self.src@ == old(self).src_view(),
                start <= self.pos <= self.src@.len(),
                skip_separators(self.src@, start) == skip_separators(self.src@, self.pos as int),
            decreases self.src@.len() - self.pos,
        {
            self.pos = self.pos + 1;
        }
    }

    /// Read an index argument (see [`read_index`]).
    pub fn read_index(&mut self) -> (r: Option<u32>)
        requires
            old(self).pos_view() <= old(self).src_view().len(),
        ensures
            final(self).src_view() == old(self).src_view(),
            final(self).pos_view() <= final(self).src_view().len(),
            match read_index(old(self).src_view(), old(self).pos_view()) {
                Some((v, e)) => r == Some(v) && final(self).pos_view() == e,
                None => r is None,
            },
    {
        self.skip_separators();
        let start = self.pos;
        let mut value: u64 = 0;
        let limit: u64 = 0x1_0000_0000;
        while self.pos < self.src.len() && is_digit_exec(self.src[self.pos])
            invariant
                self.src@ == old(self).src_view(),
                start <= self.pos <= self.src@.len(),
                digits_end(self.src@, start as int) == digits_end(self.src@, self.pos as int),
                forall|k: int| start <= k < self.pos ==> is_digit(self.src@[k]),
                value <= limit,
                limit == 0x1_0000_0000,
                value == if decimal_value(self.src@.subrange(start as int, self.pos as int)) < limit {
                    decimal_value(self.src@.subrange(start as int, self.pos as int))
                } else {
                    limit as nat
                },
            decreases self.src@.len() - self.pos,
        {
            let d = (self.src[self.pos] - 0x30) as u64;
            let ghost before = self.src@.subrange(start as int, self.pos as int);
            let ghost after = self.src@.subrange(start as int, self.pos + 1);
            assert(after.drop_last() =~= before);
            assert(decimal_value(after) == decimal_value(before) * 10 + d);
            value = if value * 10 + d < limit {
                value * 10 + d
            } else {
                limit
            };
            self.pos = self.pos + 1;
        }
        if start == self.pos || value >= limit {
            return None;
        }
        Some(value as u32)
    }
}

/// [`is_separator`], computed.
pub fn is_separator_exec(b: u8) -> (r: bool)
    ensures
        r == is_separator(b),
{
    b == 0x20 || b == 0x09 || b == 0x0a || b == 0x0c || b == 0x0d || b == 0x2c
}

/// [`is_digit`], computed.
pub fn is_digit_exec(b: u8) -> (r: bool)
    ensures
        r == is_digit(b),
{
    0x30 <= b && b <= 0x39
}

/// Read `n` index arguments (see [`read_indices`]).
fn read_n(cursor: &mut DCursor, n: usize) -> (r: Option<Vec<u32>>)
    requires
        old(cursor).pos_view() <= old(cursor).src_view().len(),
    ensures
        final(cursor).src_view() == old(cursor).src_view(),
        final(cursor).pos_view() <= final(cursor).src_view().len(),
        match read_indices(old(cursor).src_view(), old(cursor).pos_view(), n as nat) {
            Some((vs, e)) => r matches Some(v) && v@ == vs && final(cursor).pos_view() == e,
            None => r is None,
        },
{
    let mut values: Vec<u32> = Vec::new();
    let mut k: usize = 0;
    let ghost s = cursor.src_view();
    let ghost p0 = cursor.pos_view();
    assert(read_indices(s, p0, n as nat) == match read_indices(s, cursor.pos_view(), (n - k) as nat) {
        Some((vs, e)) => Some((values@ + vs, e)),
        None => None,
    }) by {
        match read_indices(s, p0, n as nat) {
            Some((vs, e)) => {
                assert(values@ + vs =~= vs);
            },
            None => {},
        }
    }
    while k < n
        invariant
            cursor.src_view() == s,
            s == old(cursor).src_view(),
            p0 == old(cursor).pos_view(),
            cursor.pos_view() <= s.len(),
            k <= n,
            read_indices(s, p0, n as nat) == match read_indices(s, cursor.pos_view(), (n - k) as nat) {
                Some((vs, e)) => Some((values@ + vs, e)),
                None => None,
            },
        decreases n - k,
    {
        let ghost here = cursor.pos_view();
        match cursor.read_index() {
            Some(v) => {
                let ghost rest = read_indices(s, cursor.pos_view(), (n - k - 1) as nat);
                assert(read_indices(s, here, (n - k) as nat) == match rest {
                    Some((vs, e)) => Some((seq![v] + vs, e)),
                    None => None,
                });
                proof {
                    match rest {
                        Some((vs, e)) => {
                            assert(values@.push(v) + vs =~= values@ + (seq![v] + vs));
                        },
                        None => {},
                    }
                }
                values.push(v);
            },
            None => {
                return None;
            },
        }
        k = k + 1;
    }
    assert(values@ + Seq::<u32>::empty() =~= values@);
    Some(values)
}

/// A `P` command with four well-formed indices adds its Coons patch and
/// leaves the sweep chain as it is, whether or not an `M` chain has been
/// started (Coons patches are independent of the sweep): the parse goes on
/// after the indices with the patch appended.
pub proof fn lemma_p_command_adds_coons_patch(s: Seq<u8>, pos: int, st: DState)
    requires
        0 <= pos,
        !st.seen_close,
        pos <= skip_separators(s, pos) < s.len(),
        s[skip_separators(s, pos)] == 0x50,
        read_indices(s, skip_separators(s, pos) + 1, 4) is Some,
    ensures
        ({
            let (a, e) = read_indices(s, skip_separators(s, pos) + 1, 4)->0;
            run(s, pos, st) == run(
                s,
                e,
                DState {
                    start: st.start,
                    patches: st.patches,
                    coons: st.coons.push(CoonsPatch { top: a[0], right: a[1], bottom: a[2], left: a[3] }),
                    seen_close: false,
                },
            )
        }),
{
    let p = skip_separators(s, pos);
    lemma_read_indices_advance(s, p + 1, 4);
    let (a, e) = read_indices(s, p + 1, 4)->0;
    assert(apply_command(st, 0x50, a) == DState {
        start: st.start,
        patches: st.patches,
        coons: st.coons.push(CoonsPatch { top: a[0], right: a[1], bottom: a[2], left: a[3] }),
        seen_close: false,
    });
}

/// Parse a surface `d` value (see [`surface_d_spec`] over its UTF-8
/// bytes). `None` when a token is malformed, a command is unsupported or
/// out of place, there is a second `M`, the `M` has no sweep patch, or
/// there is no patch at all.
pub fn parse_surface_d(input: &str) -> (r: Option<ParsedSurfaceD>)
    ensures
        match surface_d_spec(input.spec_bytes()) {
            Some(v) => r matches Some(p) && p@ == v,
            None => r is None,
        },
{
    let mut cursor = DCursor::new(input.as_bytes());
    let ghost s = cursor.src_view();
    let mut start: Option<u32> = None;
    let mut patches: Vec<SurfacePatch> = Vec::new();
    let mut coons: Vec<CoonsPatch> = Vec::new();
    let mut seen_close = false;
    let ghost goal = surface_d_spec(s);
    loop
        invariant
            cursor.src_view() == s,
            s == input.spec_bytes(),
            0 <= cursor.pos_view() <= s.len(),
            goal == surface_d_spec(s),
            goal == run(
                s,
                cursor.pos_view(),
                DState { start, patches: patches@, coons: coons@, seen_close },
            ),
        ensures
            goal == finish_spec(DState { start, patches: patches@, coons: coons@, seen_close }),
        decreases s.len() - cursor.pos_view(),
    {
        let ghost pos = cursor.pos_view();
        let ghost st = DState { start, patches: patches@, coons: coons@, seen_close };
        cursor.skip_separators();
        proof {
            lemma_skip_separators(s, pos);
        }
        if cursor.at_end() {
            break;
        }
        if seen_close {
            return None;
        }
        let cmd = match cursor.bump() {
            Some(cmd) => cmd,
            None => return None,
        };
        let ghost q = cursor.pos_view();
        if cmd == 0x5a || cmd == 0x7a {
            if start.is_none() {
                return None;
            }
            patches.push(SurfacePatch::Close);
            seen_close = true;
        } else {
            let n: usize = if cmd == 0x4d || cmd == 0x4c {
                1
            } else if cmd == 0x51 {
                2
            } else if cmd == 0x43 {
                3
            } else if cmd == 0x50 {
                4
            } else {
                0
            };
            assert(n as nat == arity(cmd));
            if n == 0 {
                return None;
            }
            if (cmd == 0x4d && start.is_some()) || (cmd != 0x4d && cmd != 0x50 && start.is_none()) {
                return None;
            }
            proof {
                lemma_read_indices_advance(s, q, n as nat);
            }
            let a = match read_n(&mut cursor, n) {
                Some(a) => a,
                None => return None,
            };
            if cmd == 0x4d {
                start = Some(a[0]);
            } else if cmd == 0x4c {
                patches.push(SurfacePatch::Linear { end: a[0] });
            } else if cmd == 0x51 {
                patches.push(SurfacePatch::Quadratic { ctrl: a[0], end: a[1] });
            } else if cmd == 0x43 {
                patches.push(SurfacePatch::Cubic { ctrl1: a[0], ctrl2: a[1], end: a[2] });
            } else {
                coons.push(CoonsPatch { top: a[0], right: a[1], bottom: a[2], left: a[3] });
            }
        }
    }
    let sweep = match start {
        Some(start) => {
            if patches.len() == 0 {
                return None;
            }
            Some((start, patches))
        },
        None => None,
    };
    if sweep.is_none() && coons.len() == 0 {
        return None;
    }
    Some(ParsedSurfaceD { sweep, coons })
}

} // verus!
