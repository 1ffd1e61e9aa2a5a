//! Unix path handling on plain strings: joining (as `PathBuf::push` does on
//! Unix), component-wise equality (as `Path`'s `==` does), and repeated
//! prefix trimming.

use vstd::prelude::*;
use crate::text::owned;

verus! {

/// `part` appended to `base` the way `Path::join` does on Unix: an absolute
/// `part` replaces `base`; otherwise a `/` separates the two unless `base` is
/// empty or already ends with one.
pub open spec fn join(base: Seq<char>, part: Seq<char>) -> Seq<char> {
    if part.len() > 0 && part[0] == '/' {
        part
    } else if base.len() > 0 && base.last() != '/' {
        base + seq!['/'] + part
    } else {
        base + part
    }
}

/// Joins `part` onto `base` (see [`join`]).
pub fn join_path(base: &str, part: &str) -> (r: String)
    ensures
        r@ == join(base@, part@),
{
    let plen: usize = part.unicode_len();
    let blen: usize = base.unicode_len();
    if plen > 0 && part.get_char(0) == '/' {
        return owned(part);
    }
    let mut r = String::new();
    r.push_str(base);
    if blen > 0 && base.get_char(blen - 1) != '/' {
        r.push('/');
    }
    r.push_str(part);
    assert(r@ =~= join(base@, part@));
    r
}

/// `s` with every leading repetition of `pat` removed, as
/// `str::trim_start_matches` does with a string pattern.
pub open spec fn trim_start_repeated(s: Seq<char>, pat: Seq<char>) -> Seq<char>
    decreases s.len(),
{
    if pat.len() > 0 && pat.len() <= s.len() && s.take(pat.len() as int) == pat {
        trim_start_repeated(s.skip(pat.len() as int), pat)
    } else {
        s
    }
}

fn starts_with_at(s: &str, from: usize, pat: &str) -> (r: bool)
    requires
        from <= s@.len(),
    ensures
        r == (pat@.len() <= s@.len() - from && s@.subrange(from as int, from + pat@.len()) == pat@),
{
    let n: usize = s.unicode_len();
    let m: usize = pat.unicode_len();
    if m > n - from {
        return false;
    }
    let mut i: usize = 0;
    while i < m
        invariant
            n == s@.len(),
            m == pat@.len(),
            from + m <= n,
            i <= m,
            forall|j: int| 0 <= j < i ==> s@[from + j] == pat@[j],
        decreases m - i,
    {
        if s.get_char(from + i) != pat.get_char(i) {
            assert(s@.subrange(from as int, from + m)[i as int] != pat@[i as int]);
            return false;
        }
        i = i + 1;
    }
    assert(s@.subrange(from as int, from + m) =~= pat@);
    true
}

/// Removes every leading repetition of `pat` from `s`.
pub fn trim_start_matches_str(s: &str, pat: &str) -> (r: String)
    ensures
        r@ == trim_start_repeated(s@, pat@),
{
    let n: usize = s.unicode_len();
    let m: usize = pat.unicode_len();
    let mut from: usize = 0;
    assert(s@.skip(0) =~= s@);
    if m > 0 {
        while from <= n && starts_with_at(s, from, pat)
            invariant
                n == s@.len(),
                m == pat@.len(),
                m > 0,
                from <= n,
                trim_start_repeated(s@, pat@) == trim_start_repeated(s@.skip(from as int), pat@),
            decreases n - from,
        {
            let ghost rest = s@.skip(from as int);
            assert(rest.take(m as int) =~= s@.subrange(from as int, from + m));
            assert(rest.skip(m as int) =~= s@.skip(from + m));
            from = from + m;
        }
        let ghost rest = s@.skip(from as int);
        assert(!(rest.len() >= m && rest.take(m as int) == pat@)) by {
            if rest.len() >= m {
                assert(rest.take(m as int) =~= s@.subrange(from as int, from + m));
            }
        }
    } else {
        assert(s@.skip(0) =~= s@);
    }
    let r = owned(s.substring_char(from, n));
    assert(r@ =~= s@.skip(from as int));
    r
}

/// One component of a path, as `Path::components` yields it on Unix.
pub enum PathComponent {
    RootDir,
    CurDir,
    ParentDir,
    Normal(Seq<char>),
}

/// Adds a finished `/`-separated piece to `done`: empty pieces and `.` are
/// dropped, `..` is the parent component, anything else a normal one.
pub open spec fn push_piece(done: Seq<PathComponent>, piece: Seq<char>) -> Seq<PathComponent> {
    if piece.len() == 0 || piece == seq!['.'] {
        done
    } else if piece == seq!['.', '.'] {
        done.push(PathComponent::ParentDir)
    } else {
        done.push(PathComponent::Normal(piece))
    }
}

/// Scans `p` left to right: the components finished so far and the piece
/// being read.
pub open spec fn scan_pieces(p: Seq<char>) -> (Seq<PathComponent>, Seq<char>)
    decreases p.len(),
{
    if p.len() == 0 {
        (seq![], seq![])
    } else {
        let (done, cur) = scan_pieces(p.drop_last());
        if p.last() == '/' {
            (push_piece(done, cur), seq![])
        } else {
            (done, cur.push(p.last()))
        }
    }
}

/// Whether the path starts with a `.` component (`.` alone or `./...`).
pub open spec fn leading_cur_dir(p: Seq<char>) -> bool {
    p.len() > 0 && p[0] == '.' && (p.len() == 1 || p[1] == '/')
}

/// The components of a Unix path: the root, a leading `.` for a relative
/// path that starts with one, then each non-empty piece other than `.`.
pub open spec fn components(p: Seq<char>) -> Seq<PathComponent> {
    let head: Seq<PathComponent> = if p.len() > 0 && p[0] == '/' {
        seq![PathComponent::RootDir]
    } else if leading_cur_dir(p) {
        seq![PathComponent::CurDir]
    } else {
        seq![]
    };
    let (done, cur) = scan_pieces(p);
    head + push_piece(done, cur)
}

/// Path equality: same components, as `Path`'s `==` compares.
pub open spec fn same_path(a: Seq<char>, b: Seq<char>) -> bool {
    components(a) == components(b)
}

/// Executable component; `Piece` holds the characters of a normal one.
enum Comp {
    Root,
    Cur,
    Parent,
    Piece(Vec<char>),
}

impl Comp {
    spec fn model(self) -> PathComponent {
        match self {
            Comp::Root => PathComponent::RootDir,
            Comp::Cur => PathComponent::CurDir,
            Comp::Parent => PathComponent::ParentDir,
            Comp::Piece(v) => PathComponent::Normal(v@),
        }
    }
}

spec fn model_seq(v: Seq<Comp>) -> Seq<PathComponent> {
    Seq::new(v.len(), |i: int| v[i].model())
}

fn finish_piece(done: &mut Vec<Comp>, piece: Vec<char>)
    ensures
        model_seq(final(done)@) == push_piece(model_seq(old(done)@), piece@),
{
    let ghost before = model_seq(done@);
    let n: usize = piece.len();
    if n == 0 || (n == 1 && piece[0] == '.') {
        assert(piece@ == seq!['.'] || piece@.len() == 0) by {
            if n == 1 {
                assert(piece@ =~= seq!['.']);
            }
        }
        return;
    }
    assert(piece@ != seq!['.']) by {
        if piece@ == seq!['.'] {
            assert(piece@.len() == 1);
        }
    }
    if n == 2 && piece[0] == '.' && piece[1] == '.' {
        assert(piece@ =~= seq!['.', '.']);
        done.push(Comp::Parent);
    } else {
        assert(piece@ != seq!['.', '.']) by {
            if piece@ == seq!['.', '.'] {
                assert(piece@.len() == 2 && piece@[0] == '.' && piece@[1] == '.');
            }
        }
        done.push(Comp::Piece(piece));
    }
    assert(model_seq(done@) =~= push_piece(before, piece@));
}

fn path_components(p: &str) -> (r: Vec<Comp>)
    ensures
        model_seq(r@) == components(p@),
{
    let n: usize = p.unicode_len();
    let mut r: Vec<Comp> = Vec::new();
    if n > 0 && p.get_char(0) == '/' {
        r.push(Comp::Root);
    } else if n > 0 && p.get_char(0) == '.' && (n == 1 || p.get_char(1) == '/') {
        r.push(Comp::Cur);
    }
    let ghost head = model_seq(r@);
    let mut cur: Vec<char> = Vec::new();
    let mut i: usize = 0;
    assert(p@.take(0) =~= seq![]);
    assert(model_seq(r@) =~= head + scan_pieces(p@.take(0)).0);
    while i < n
        invariant
            n == p@.len(),
            i <= n,
            model_seq(r@) == head + scan_pieces(p@.take(i as int)).0,
            cur@ == scan_pieces(p@.take(i as int)).1,
        decreases n - i,
    {
        let c = p.get_char(i);
        let ghost pre = p@.take(i as int);
        assert(p@.take(i + 1).drop_last() =~= pre);
        assert(p@.take(i + 1).last() == c);
        if c == '/' {
            let piece = cur;
            cur = Vec::new();
            finish_piece(&mut r, piece);
            proof {
                let (d, cc) = scan_pieces(pre);
                lemma_push_piece_append(head, d, cc);
            }
        } else {
            cur.push(c);
        }
        i = i + 1;
    }
    assert(p@.take(n as int) =~= p@);
    let piece = cur;
    finish_piece(&mut r, piece);
    proof {
        let (d, cc) = scan_pieces(p@);
        lemma_push_piece_append(head, d, cc);
    }
    r
}

proof fn lemma_push_piece_append(head: Seq<PathComponent>, done: Seq<PathComponent>, piece: Seq<char>)
    ensures
        push_piece(head + done, piece) == head + push_piece(done, piece),
{
    if piece.len() == 0 || piece == seq!['.'] {
    } else if piece == seq!['.', '.'] {
        assert((head + done).push(PathComponent::ParentDir) =~= head + done.push(PathComponent::ParentDir));
    } else {
        assert((head + done).push(PathComponent::Normal(piece)) =~= head + done.push(PathComponent::Normal(piece)));
    }
}

fn comp_eq(a: &Comp, b: &Comp) -> (r: bool)
    ensures
        r == (a.model() == b.model()),
{
    match (a, b) {
        (Comp::Root, Comp::Root) => true,
        (Comp::Cur, Comp::Cur) => true,
        (Comp::Parent, Comp::Parent) => true,
        (Comp::Piece(x), Comp::Piece(y)) => {
            let n: usize = x.len();
            if n != y.len() {
                assert(x@.len() != y@.len());
                return false;
            }
            let mut i: usize = 0;
            assert(a.model() == PathComponent::Normal(x@));
            assert(b.model() == PathComponent::Normal(y@));
            while i < n
                invariant
                    a.model() == PathComponent::Normal(x@),
                    b.model() == PathComponent::Normal(y@),
                    n == x@.len(),
                    n == y@.len(),
                    i <= n,
                    forall|j: int| 0 <= j < i ==> x@[j] == y@[j],
                decreases n - i,
            {
                if x[i] != y[i] {
                    assert(x@[i as int] != y@[i as int]);
                    assert(x@ != y@);
                    return false;
                }
                i = i + 1;
            }
            assert(x@ =~= y@);
            true
        },
        _ => false,
    }
}

/// Whether two paths name the same location component for component, the
/// way `Path`'s `==` decides it.
pub fn paths_equal(a: &str, b: &str) -> (r: bool)
    ensures
        r == same_path(a@, b@),
{
    let ca = path_components(a);
    let cb = path_components(b);
    let n: usize = ca.len();
    if n != cb.len() {
        assert(model_seq(ca@).len() != model_seq(cb@).len());
        return false;
    }
    let mut i: usize = 0;
    while i < n
        invariant
            n == ca@.len(),
            n == cb@.len(),
            i <= n,
            model_seq(ca@) == components(a@),
            model_seq(cb@) == components(b@),
            forall|j: int| 0 <= j < i ==> ca@[j].model() == cb@[j].model(),
        decreases n - i,
    {
        if !comp_eq(&ca[i], &cb[i]) {
            assert(model_seq(ca@)[i as int] != model_seq(cb@)[i as int]);
            return false;
        }
        i = i + 1;
    }
    assert(model_seq(ca@) =~= model_seq(cb@));
    true
}

} // verus!
