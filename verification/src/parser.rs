//! The script syntax layer: a script is a `;`-separated sequence of
//! statements, each an operation name followed by space-separated numeric
//! argument tokens. The grammar is stated as a functional specification over
//! the script's bytes, and the executable parser is proved to compute it.

use vstd::prelude::*;

use vstd::string::StringSliceAdditionalSpecFns;
use vstd::string::StringExecFns;

use crate::errors::SicParserError;
use crate::numeral::all_digits;
use crate::numeral::is_digit;
use crate::numeral::spec_fp_split;
use crate::numeral::spec_parse_fp;
use crate::numeral::spec_parse_i32;
use crate::numeral::spec_parse_u32;
use crate::numeral::FpLit;
use crate::operations::OperationId;

verus! {

/// Whitespace accepted around statements: space, tab, line feed, carriage
/// return. Between an operation name and its arguments, and between two
/// arguments, only a single plain space separates.
pub open spec fn is_ws(b: u8) -> bool {
    b == 32 || b == 9 || b == 10 || b == 13
}

/// Bytes an operation name may consist of: lower-case letters and digits.
pub open spec fn is_ident_byte(b: u8) -> bool {
    (97 <= b && b <= 122) || (48 <= b && b <= 57)
}

/// Bytes a numeric argument token may consist of: digits, signs, and the
/// decimal point.
pub open spec fn is_token_byte(b: u8) -> bool {
    is_digit(b) || b == 43 || b == 45 || b == 46
}

/// Length of the longest prefix of `s` made of whitespace bytes.
pub open spec fn ws_len(s: Seq<u8>) -> int
    decreases s.len(),
{
    if s.len() > 0 && is_ws(s[0]) {
        1 + ws_len(s.skip(1))
    } else {
        0
    }
}

pub proof fn lemma_ws_len(s: Seq<u8>)
    ensures
        0 <= ws_len(s) <= s.len(),
        forall|i: int| 0 <= i < ws_len(s) ==> is_ws(#[trigger] s[i]),
        ws_len(s) < s.len() ==> !is_ws(s[ws_len(s)]),
    decreases s.len(),
{
    if s.len() > 0 && is_ws(s[0]) {
        lemma_ws_len(s.skip(1));
        assert(forall|i: int| 1 <= i < ws_len(s) ==> s[i] == s.skip(1)[i - 1]);
        if ws_len(s) < s.len() {
            assert(s[ws_len(s)] == s.skip(1)[ws_len(s) - 1]);
        }
    }
}

/// Such a run followed by a byte outside it (or by nothing) measures exactly
/// the run.
pub proof fn lemma_ws_len_concat(a: Seq<u8>, r: Seq<u8>)
    requires
        forall|i: int| 0 <= i < a.len() ==> is_ws(#[trigger] a[i]),
        r.len() == 0 || !is_ws(r[0]),
    ensures
        ws_len(a + r) == a.len(),
    decreases a.len(),
{
    if a.len() == 0 {
        assert(a + r =~= r);
    } else {
        lemma_ws_len_concat(a.skip(1), r);
        assert((a + r).skip(1) =~= a.skip(1) + r);
    }
}

/// Length of the longest prefix of `s` made of identifier bytes.
pub open spec fn ident_len(s: Seq<u8>) -> int
    decreases s.len(),
{
    if s.len() > 0 && is_ident_byte(s[0]) {
        1 + ident_len(s.skip(1))
    } else {
        0
    }
}

pub proof fn lemma_ident_len(s: Seq<u8>)
    ensures
        0 <= ident_len(s) <= s.len(),
        forall|i: int| 0 <= i < ident_len(s) ==> is_ident_byte(#[trigger] s[i]),
        ident_len(s) < s.len() ==> !is_ident_byte(s[ident_len(s)]),
    decreases s.len(),
{
    if s.len() > 0 && is_ident_byte(s[0]) {
        lemma_ident_len(s.skip(1));
        assert(forall|i: int| 1 <= i < ident_len(s) ==> s[i] == s.skip(1)[i - 1]);
        if ident_len(s) < s.len() {
            assert(s[ident_len(s)] == s.skip(1)[ident_len(s) - 1]);
        }
    }
}

/// Such a run followed by a byte outside it (or by nothing) measures exactly
/// the run.
pub proof fn lemma_ident_len_concat(a: Seq<u8>, r: Seq<u8>)
    requires
        forall|i: int| 0 <= i < a.len() ==> is_ident_byte(#[trigger] a[i]),
        r.len() == 0 || !is_ident_byte(r[0]),
    ensures
        ident_len(a + r) == a.len(),
    decreases a.len(),
{
    if a.len() == 0 {
        assert(a + r =~= r);
    } else {
        lemma_ident_len_concat(a.skip(1), r);
        assert((a + r).skip(1) =~= a.skip(1) + r);
    }
}

/// Length of the longest prefix of `s` made of token bytes.
pub open spec fn token_len(s: Seq<u8>) -> int
    decreases s.len(),
{
    if s.len() > 0 && is_token_byte(s[0]) {
        1 + token_len(s.skip(1))
    } else {
        0
    }
}

pub proof fn lemma_token_len(s: Seq<u8>)
    ensures
        0 <= token_len(s) <= s.len(),
        forall|i: int| 0 <= i < token_len(s) ==> is_token_byte(#[trigger] s[i]),
        token_len(s) < s.len() ==> !is_token_byte(s[token_len(s)]),
    decreases s.len(),
{
    if s.len() > 0 && is_token_byte(s[0]) {
        lemma_token_len(s.skip(1));
        assert(forall|i: int| 1 <= i < token_len(s) ==> s[i] == s.skip(1)[i - 1]);
        if token_len(s) < s.len() {
            assert(s[token_len(s)] == s.skip(1)[token_len(s) - 1]);
        }
    }
}

/// Such a run followed by a byte outside it (or by nothing) measures exactly
/// the run.
pub proof fn lemma_token_len_concat(a: Seq<u8>, r: Seq<u8>)
    requires
        forall|i: int| 0 <= i < a.len() ==> is_token_byte(#[trigger] a[i]),
        r.len() == 0 || !is_token_byte(r[0]),
    ensures
        token_len(a + r) == a.len(),
    decreases a.len(),
{
    if a.len() == 0 {
        assert(a + r =~= r);
    } else {
        lemma_token_len_concat(a.skip(1), r);
        assert((a + r).skip(1) =~= a.skip(1) + r);
    }
}

/// The byte name of each operation the script language can spell. Only these
/// names are recognized by the syntax layer.
pub open spec fn script_name(op: OperationId) -> Seq<u8> {
    match op {
        OperationId::Blur => seq![98u8, 108u8, 117u8, 114u8],
        OperationId::Brighten => seq![98u8, 114u8, 105u8, 103u8, 104u8, 116u8, 101u8, 110u8],
        OperationId::Contrast => seq![99u8, 111u8, 110u8, 116u8, 114u8, 97u8, 115u8, 116u8],
        OperationId::Crop => seq![99u8, 114u8, 111u8, 112u8],
        OperationId::Filter3x3 => seq![102u8, 105u8, 108u8, 116u8, 101u8, 114u8, 51u8, 120u8, 51u8],
        OperationId::FlipHorizontal => seq![102u8, 108u8, 105u8, 112u8, 104u8],
        OperationId::FlipVertical => seq![102u8, 108u8, 105u8, 112u8, 118u8],
        OperationId::Grayscale => seq![103u8, 114u8, 97u8, 121u8, 115u8, 99u8, 97u8, 108u8, 101u8],
        OperationId::HueRotate => seq![104u8, 117u8, 101u8, 114u8, 111u8, 116u8, 97u8, 116u8, 101u8],
        OperationId::Invert => seq![105u8, 110u8, 118u8, 101u8, 114u8, 116u8],
        OperationId::Resize => seq![114u8, 101u8, 115u8, 105u8, 122u8, 101u8],
        OperationId::Rotate90 => seq![114u8, 111u8, 116u8, 97u8, 116u8, 101u8, 57u8, 48u8],
        OperationId::Rotate180 => seq![114u8, 111u8, 116u8, 97u8, 116u8, 101u8, 49u8, 56u8, 48u8],
        OperationId::Rotate270 => seq![114u8, 111u8, 116u8, 97u8, 116u8, 101u8, 50u8, 55u8, 48u8],
        OperationId::Unsharpen => seq![117u8, 110u8, 115u8, 104u8, 97u8, 114u8, 112u8, 101u8, 110u8],
        _ => Seq::empty(),
    }
}

/// Whether an operation can be spelled in a script at all.
pub open spec fn is_script_op(op: OperationId) -> bool {
    match op {
        OperationId::Blur
        | OperationId::Brighten
        | OperationId::Contrast
        | OperationId::Crop
        | OperationId::Filter3x3
        | OperationId::FlipHorizontal
        | OperationId::FlipVertical
        | OperationId::Grayscale
        | OperationId::HueRotate
        | OperationId::Invert
        | OperationId::Resize
        | OperationId::Rotate90
        | OperationId::Rotate180
        | OperationId::Rotate270
        | OperationId::Unsharpen => true,
        _ => false,
    }
}

/// The operation a statement's identifier names, if any.
pub open spec fn spec_script_op(n: Seq<u8>) -> Option<OperationId> {
    if n == script_name(OperationId::Blur) {
        Some(OperationId::Blur)
    } else if n == script_name(OperationId::Brighten) {
        Some(OperationId::Brighten)
    } else if n == script_name(OperationId::Contrast) {
        Some(OperationId::Contrast)
    } else if n == script_name(OperationId::Crop) {
        Some(OperationId::Crop)
    } else if n == script_name(OperationId::Filter3x3) {
        Some(OperationId::Filter3x3)
    } else if n == script_name(OperationId::FlipHorizontal) {
        Some(OperationId::FlipHorizontal)
    } else if n == script_name(OperationId::FlipVertical) {
        Some(OperationId::FlipVertical)
    } else if n == script_name(OperationId::Grayscale) {
        Some(OperationId::Grayscale)
    } else if n == script_name(OperationId::HueRotate) {
        Some(OperationId::HueRotate)
    } else if n == script_name(OperationId::Invert) {
        Some(OperationId::Invert)
    } else if n == script_name(OperationId::Resize) {
        Some(OperationId::Resize)
    } else if n == script_name(OperationId::Rotate90) {
        Some(OperationId::Rotate90)
    } else if n == script_name(OperationId::Rotate180) {
        Some(OperationId::Rotate180)
    } else if n == script_name(OperationId::Rotate270) {
        Some(OperationId::Rotate270)
    } else if n == script_name(OperationId::Unsharpen) {
        Some(OperationId::Unsharpen)
    } else {
        None
    }
}

/// The grammar's three scalar token kinds.
#[derive(Debug, Clone, Copy, PartialEq, Eq, Structural)]
pub enum ArgKind {
    /// Digits only.
    Uint,
    /// An optional sign, then digits.
    Int,
    /// An optional sign, digits, and an optional fraction; a bare trailing
    /// decimal point is malformed.
    Fp,
}

pub open spec fn shape_uint(t: Seq<u8>) -> bool {
    t.len() > 0 && all_digits(t)
}

pub open spec fn shape_int(t: Seq<u8>) -> bool {
    if t.len() > 0 && (t[0] == 43 || t[0] == 45) {
        t.skip(1).len() > 0 && all_digits(t.skip(1))
    } else {
        shape_uint(t)
    }
}

pub open spec fn shape_fp(t: Seq<u8>) -> bool {
    spec_fp_split(t) is Some
}

pub open spec fn shape_ok(k: ArgKind, t: Seq<u8>) -> bool {
    match k {
        ArgKind::Uint => shape_uint(t),
        ArgKind::Int => shape_int(t),
        ArgKind::Fp => shape_fp(t),
    }
}

/// The scalar argument pattern of each script operation other than the 3x3
/// filter, whose grouped form is treated on its own.
pub open spec fn arg_kinds(op: OperationId) -> Seq<ArgKind> {
    match op {
        OperationId::Blur => seq![ArgKind::Fp],
        OperationId::Brighten => seq![ArgKind::Int],
        OperationId::Contrast => seq![ArgKind::Fp],
        OperationId::Crop => seq![ArgKind::Uint, ArgKind::Uint, ArgKind::Uint, ArgKind::Uint],
        OperationId::HueRotate => seq![ArgKind::Int],
        OperationId::Resize => seq![ArgKind::Uint, ArgKind::Uint],
        OperationId::Unsharpen => seq![ArgKind::Fp, ArgKind::Int],
        _ => Seq::empty(),
    }
}

/// One statement's raw reading: the operation named, and its argument tokens
/// as unparsed byte fragments, in source order.
pub type RawStmtV = (OperationId, Seq<Seq<u8>>);

/// Parses `kinds.len()` argument tokens, each preceded by exactly one space;
/// yields the tokens and the byte count consumed.
pub open spec fn sp_args(s: Seq<u8>, kinds: Seq<ArgKind>) -> Option<(Seq<Seq<u8>>, int)>
    decreases kinds.len(),
{
    if kinds.len() == 0 {
        Some((Seq::empty(), 0))
    } else if s.len() > 0 && s[0] == 32 {
        let n = token_len(s.skip(1));
        let t = s.skip(1).take(n);
        if n > 0 && shape_ok(kinds[0], t) {
            match sp_args(s.skip(1 + n), kinds.skip(1)) {
                Some((ts, c)) => Some((seq![t] + ts, 1 + n + c)),
                None => None,
            }
        } else {
            None
        }
    } else {
        None
    }
}

/// One separator inside a 3x3 filter's argument list: either a single space,
/// or a pipe flanked by single spaces (the triplet divider).
pub open spec fn sp_sep(s: Seq<u8>) -> Option<(bool, int)> {
    if s.len() >= 3 && s[0] == 32 && s[1] == 124 && s[2] == 32 {
        Some((true, 3))
    } else if s.len() >= 1 && s[0] == 32 {
        Some((false, 1))
    } else {
        None
    }
}

/// One fractional token at the head of `s`.
pub open spec fn sp_fp_tok(s: Seq<u8>) -> Option<(Seq<u8>, int)> {
    let n = token_len(s);
    if n > 0 && shape_fp(s.take(n)) {
        Some((s.take(n), n))
    } else {
        None
    }
}

/// `k` further (separator, token) pairs of a 3x3 filter's argument list;
/// yields tokens, the pipe-or-space kind of each separator, and the byte
/// count consumed.
pub open spec fn sp_f3_pairs(s: Seq<u8>, k: nat) -> Option<(Seq<Seq<u8>>, Seq<bool>, int)>
    decreases k,
{
    if k == 0 {
        Some((Seq::empty(), Seq::empty(), 0))
    } else {
        match sp_sep(s) {
            None => None,
            Some((pipe, c1)) => match sp_fp_tok(s.skip(c1)) {
                None => None,
                Some((t, c2)) => match sp_f3_pairs(s.skip(c1 + c2), (k - 1) as nat) {
                    None => None,
                    Some((ts, ps, c)) => Some(
                        (seq![t] + ts, seq![pipe] + ps, c1 + c2 + c),
                    ),
                },
            },
        }
    }
}

/// The pipe pattern a 3x3 filter's eight inner separators must follow: either
/// no pipes at all, or pipes exactly after the third and sixth token.
pub open spec fn pipes_ok(ps: Seq<bool>) -> bool {
    ps.len() == 8 && ps[0] == false && ps[1] == false && ps[2] == ps[5] && ps[3] == false && ps[4]
        == false && ps[6] == false && ps[7] == false
}

/// The nine arguments of a 3x3 filter statement.
pub open spec fn sp_f3_args(s: Seq<u8>) -> Option<(Seq<Seq<u8>>, int)> {
    if s.len() > 0 && s[0] == 32 {
        match sp_fp_tok(s.skip(1)) {
            None => None,
            Some((t1, c1)) => match sp_f3_pairs(s.skip(1 + c1), 8) {
                None => None,
                Some((ts, ps, c)) => if pipes_ok(ps) {
                    Some((seq![t1] + ts, 1 + c1 + c))
                } else {
                    None
                },
            },
        }
    } else {
        None
    }
}

/// One whole statement at the head of `s`: an operation name, then its
/// arguments; yields the raw statement and the byte count consumed.
pub open spec fn sp_statement(s: Seq<u8>) -> Option<(RawStmtV, int)> {
    let n = ident_len(s);
    if n == 0 {
        None
    } else {
        match spec_script_op(s.take(n)) {
            None => None,
            Some(op) => if op == OperationId::Filter3x3 {
                match sp_f3_args(s.skip(n)) {
                    Some((ts, c)) => Some(((op, ts), n + c)),
                    None => None,
                }
            } else {
                match sp_args(s.skip(n), arg_kinds(op)) {
                    Some((ts, c)) => Some(((op, ts), n + c)),
                    None => None,
                }
            },
        }
    }
}

pub proof fn lemma_sp_args_bounds(s: Seq<u8>, kinds: Seq<ArgKind>)
    ensures
        sp_args(s, kinds) is Some ==> 0 <= sp_args(s, kinds).unwrap().1 <= s.len(),
    decreases kinds.len(),
{
    if kinds.len() > 0 && s.len() > 0 && s[0] == 32 {
        let n = token_len(s.skip(1));
        lemma_token_len(s.skip(1));
        lemma_sp_args_bounds(s.skip(1 + n), kinds.skip(1));
    }
}

pub proof fn lemma_sp_f3_pairs_bounds(s: Seq<u8>, k: nat)
    ensures
        sp_f3_pairs(s, k) is Some ==> 0 <= sp_f3_pairs(s, k).unwrap().2 <= s.len(),
    decreases k,
{
    if k > 0 {
        match sp_sep(s) {
            None => {},
            Some((pipe, c1)) => {
                lemma_token_len(s.skip(c1));
                match sp_fp_tok(s.skip(c1)) {
                    None => {},
                    Some((t, c2)) => {
                        lemma_sp_f3_pairs_bounds(s.skip(c1 + c2), (k - 1) as nat);
                    },
                }
            },
        }
    }
}

pub proof fn lemma_sp_statement_bounds(s: Seq<u8>)
    ensures
        sp_statement(s) is Some ==> 1 <= sp_statement(s).unwrap().1 <= s.len(),
{
    let n = ident_len(s);
    lemma_ident_len(s);
    if n > 0 {
        match spec_script_op(s.take(n)) {
            None => {},
            Some(op) => {
                if op == OperationId::Filter3x3 {
                    if s.skip(n).len() > 0 && s.skip(n)[0] == 32 {
                        lemma_token_len(s.skip(n).skip(1));
                        match sp_fp_tok(s.skip(n).skip(1)) {
                            None => {},
                            Some((t1, c1)) => {
                                lemma_sp_f3_pairs_bounds(s.skip(n).skip(1 + c1), 8);
                                assert(s.skip(n).skip(1 + c1).len() == s.len() - n - 1 - c1);
                            },
                        }
                    }
                } else {
                    lemma_sp_args_bounds(s.skip(n), arg_kinds(op));
                }
            },
        }
    }
}

/// The statements of a script whose head is a statement start (not
/// whitespace, not the end): a statement, then either the end (after optional
/// trailing whitespace), or a `;` and — unless the script ends there — the
/// next statement.
pub open spec fn sp_stmts(s: Seq<u8>) -> Option<Seq<RawStmtV>>
    decreases s.len(),
        when s.len() > 0
        via sp_stmts_dec
{
    match sp_statement(s) {
        None => None,
        Some((st, c)) => {
            let rest = s.skip(c);
            let w = ws_len(rest);
            if w == rest.len() {
                Some(seq![st])
            } else if rest[w] == 59 {
                let rest2 = rest.skip(w + 1);
                let w2 = ws_len(rest2);
                if w2 == rest2.len() {
                    Some(seq![st])
                } else {
                    match sp_stmts(rest2.skip(w2)) {
                        Some(r) => Some(seq![st] + r),
                        None => None,
                    }
                }
            } else {
                None
            }
        },
    }
}

#[via_fn]
proof fn sp_stmts_dec(s: Seq<u8>) {
    lemma_sp_statement_bounds(s);
    match sp_statement(s) {
        None => {},
        Some((st, c)) => {
            let rest = s.skip(c);
            lemma_ws_len(rest);
            let w = ws_len(rest);
            if w < rest.len() && rest[w] == 59 {
                let rest2 = rest.skip(w + 1);
                lemma_ws_len(rest2);
            }
        },
    }
}

/// The raw reading of a whole script: leading whitespace, then — unless the
/// script is empty — its statements.
pub open spec fn sp_script(s: Seq<u8>) -> Option<Seq<RawStmtV>> {
    let w = ws_len(s);
    if w == s.len() {
        Some(Seq::empty())
    } else {
        sp_stmts(s.skip(w))
    }
}

/// One statement as read from the script: the operation named, and its raw
/// argument tokens in source order, each an unparsed byte fragment.
#[derive(Debug, Clone, PartialEq, Eq)]
pub struct RawStmt {
    pub op: OperationId,
    pub tokens: Vec<Vec<u8>>,
}

impl View for RawStmt {
    type V = RawStmtV;

    open spec fn view(&self) -> RawStmtV {
        (self.op, self.tokens.deep_view())
    }
}

impl DeepView for RawStmt {
    type V = RawStmtV;

    open spec fn deep_view(&self) -> RawStmtV {
        self.view()
    }
}

fn scan_ws(s: &[u8], i: usize) -> (r: usize)
    requires
        i <= s@.len(),
    ensures
        r - i == ws_len(s@.skip(i as int)),
        i <= r <= s@.len(),
{
    let mut j = i;
    while j < s.len() && (s[j] == 32 || s[j] == 9 || s[j] == 10 || s[j] == 13)
        invariant
            i <= j <= s@.len(),
            ws_len(s@.skip(i as int)) == (j - i) + ws_len(s@.skip(j as int)),
        decreases s@.len() - j,
    {
        assert(s@.skip(j as int)[0] == s@[j as int]);
        assert(s@.skip(j as int).skip(1) =~= s@.skip(j + 1));
        j = j + 1;
    }
    j
}

fn scan_ident(s: &[u8], i: usize) -> (r: usize)
    requires
        i <= s@.len(),
    ensures
        r - i == ident_len(s@.skip(i as int)),
        i <= r <= s@.len(),
{
    let mut j = i;
    while j < s.len() && ((97 <= s[j] && s[j] <= 122) || (48 <= s[j] && s[j] <= 57))
        invariant
            i <= j <= s@.len(),
            ident_len(s@.skip(i as int)) == (j - i) + ident_len(s@.skip(j as int)),
        decreases s@.len() - j,
    {
        assert(s@.skip(j as int)[0] == s@[j as int]);
        assert(s@.skip(j as int).skip(1) =~= s@.skip(j + 1));
        j = j + 1;
    }
    j
}

fn scan_token(s: &[u8], i: usize) -> (r: usize)
    requires
        i <= s@.len(),
    ensures
        r - i == token_len(s@.skip(i as int)),
        i <= r <= s@.len(),
{
    let mut j = i;
    while j < s.len() && ((48 <= s[j] && s[j] <= 57) || s[j] == 43 || s[j] == 45 || s[j] == 46)
        invariant
            i <= j <= s@.len(),
            token_len(s@.skip(i as int)) == (j - i) + token_len(s@.skip(j as int)),
        decreases s@.len() - j,
    {
        assert(s@.skip(j as int)[0] == s@[j as int]);
        assert(s@.skip(j as int).skip(1) =~= s@.skip(j + 1));
        j = j + 1;
    }
    j
}

/// Looks an identifier up among the operations the script language spells.
fn script_op_of(ident: &[u8]) -> (r: Option<OperationId>)
    ensures
        r == spec_script_op(ident@),
{
    let l = ident.len();
    if l == 4 && ident[0] == 98 && ident[1] == 108 && ident[2] == 117 && ident[3] == 114 {
        assert(ident@ =~= script_name(OperationId::Blur));
        return Some(OperationId::Blur);
    }
    if l == 8 && ident[0] == 98 && ident[1] == 114 && ident[2] == 105 && ident[3] == 103
        && ident[4] == 104 && ident[5] == 116 && ident[6] == 101 && ident[7] == 110 {
        assert(ident@ =~= script_name(OperationId::Brighten));
        return Some(OperationId::Brighten);
    }
    if l == 8 && ident[0] == 99 && ident[1] == 111 && ident[2] == 110 && ident[3] == 116
        && ident[4] == 114 && ident[5] == 97 && ident[6] == 115 && ident[7] == 116 {
        assert(ident@ =~= script_name(OperationId::Contrast));
        return Some(OperationId::Contrast);
    }
    if l == 4 && ident[0] == 99 && ident[1] == 114 && ident[2] == 111 && ident[3] == 112 {
        assert(ident@ =~= script_name(OperationId::Crop));
        return Some(OperationId::Crop);
    }
    if l == 9 && ident[0] == 102 && ident[1] == 105 && ident[2] == 108 && ident[3] == 116
        && ident[4] == 101 && ident[5] == 114 && ident[6] == 51 && ident[7] == 120 && ident[8]
        == 51 {
        assert(ident@ =~= script_name(OperationId::Filter3x3));
        return Some(OperationId::Filter3x3);
    }
    if l == 5 && ident[0] == 102 && ident[1] == 108 && ident[2] == 105 && ident[3] == 112
        && ident[4] == 104 {
        assert(ident@ =~= script_name(OperationId::FlipHorizontal));
        return Some(OperationId::FlipHorizontal);
    }
    if l == 5 && ident[0] == 102 && ident[1] == 108 && ident[2] == 105 && ident[3] == 112
        && ident[4] == 118 {
        assert(ident@ =~= script_name(OperationId::FlipVertical));
        return Some(OperationId::FlipVertical);
    }
    if l == 9 && ident[0] == 103 && ident[1] == 114 && ident[2] == 97 && ident[3] == 121
        && ident[4] == 115 && ident[5] == 99 && ident[6] == 97 && ident[7] == 108 && ident[8]
        == 101 {
        assert(ident@ =~= script_name(OperationId::Grayscale));
        return Some(OperationId::Grayscale);
    }
    if l == 9 && ident[0] == 104 && ident[1] == 117 && ident[2] == 101 && ident[3] == 114
        && ident[4] == 111 && ident[5] == 116 && ident[6] == 97 && ident[7] == 116 && ident[8]
        == 101 {
        assert(ident@ =~= script_name(OperationId::HueRotate));
        return Some(OperationId::HueRotate);
    }
    if l == 6 && ident[0] == 105 && ident[1] == 110 && ident[2] == 118 && ident[3] == 101
        && ident[4] == 114 && ident[5] == 116 {
        assert(ident@ =~= script_name(OperationId::Invert));
        return Some(OperationId::Invert);
    }
    if l == 6 && ident[0] == 114 && ident[1] == 101 && ident[2] == 115 && ident[3] == 105
        && ident[4] == 122 && ident[5] == 101 {
        assert(ident@ =~= script_name(OperationId::Resize));
        return Some(OperationId::Resize);
    }
    if l == 8 && ident[0] == 114 && ident[1] == 111 && ident[2] == 116 && ident[3] == 97
        && ident[4] == 116 && ident[5] == 101 && ident[6] == 57 && ident[7] == 48 {
        assert(ident@ =~= script_name(OperationId::Rotate90));
        return Some(OperationId::Rotate90);
    }
    if l == 9 && ident[0] == 114 && ident[1] == 111 && ident[2] == 116 && ident[3] == 97
        && ident[4] == 116 && ident[5] == 101 && ident[6] == 49 && ident[7] == 56 && ident[8]
        == 48 {
        assert(ident@ =~= script_name(OperationId::Rotate180));
        return Some(OperationId::Rotate180);
    }
    if l == 9 && ident[0] == 114 && ident[1] == 111 && ident[2] == 116 && ident[3] == 97
        && ident[4] == 116 && ident[5] == 101 && ident[6] == 50 && ident[7] == 55 && ident[8]
        == 48 {
        assert(ident@ =~= script_name(OperationId::Rotate270));
        return Some(OperationId::Rotate270);
    }
    if l == 9 && ident[0] == 117 && ident[1] == 110 && ident[2] == 115 && ident[3] == 104
        && ident[4] == 97 && ident[5] == 114 && ident[6] == 112 && ident[7] == 101 && ident[8]
        == 110 {
        assert(ident@ =~= script_name(OperationId::Unsharpen));
        return Some(OperationId::Unsharpen);
    }
    None
}

/// Whether a token has the byte shape its declared kind requires.
fn token_shape_ok(kind: ArgKind, t: &[u8]) -> (r: bool)
    ensures
        r == shape_ok(kind, t@),
{
    match kind {
        ArgKind::Uint => t.len() > 0 && crate::numeral::all_digits_slice(t),
        ArgKind::Int => {
            if t.len() > 0 && (t[0] == 43 || t[0] == 45) {
                let d: &[u8] = &t[1..t.len()];
                assert(d@ =~= t@.skip(1));
                d.len() > 0 && crate::numeral::all_digits_slice(d)
            } else {
                t.len() > 0 && crate::numeral::all_digits_slice(t)
            }
        },
        ArgKind::Fp => crate::numeral::fp_shape_ok(t),
    }
}

/// Copies the bytes `i..j` of the script out as one raw token.
fn copy_token(s: &[u8], i: usize, j: usize) -> (r: Vec<u8>)
    requires
        i <= j <= s@.len(),
    ensures
        r@ == s@.subrange(i as int, j as int),
{
    let piece: &[u8] = &s[i..j];
    vstd::slice::slice_to_vec(piece)
}

/// The deep view of a token list is its tokens' byte sequences, elementwise.
pub proof fn lemma_deep_view_tokens(v: Vec<Vec<u8>>)
    ensures
        v.deep_view().len() == v@.len(),
        forall|i: int| 0 <= i < v@.len() ==> v.deep_view()[i] == v@[i]@,
{
    assert forall|i: int| 0 <= i < v@.len() implies v.deep_view()[i] == v@[i]@ by {
        assert(v@[i].deep_view() =~= v@[i]@);
    }
}

/// Parses the space-led argument tokens of one statement, one per expected
/// kind.
fn parse_args(s: &[u8], i: usize, kinds: &[ArgKind]) -> (r: Result<
    (Vec<Vec<u8>>, usize),
    SicParserError,
>)
    requires
        i <= s@.len(),
    ensures
        match r {
            Ok((ts, j)) => sp_args(s@.skip(i as int), kinds@) == Some(
                (ts.deep_view(), (j - i) as int),
            ) && i <= j <= s@.len(),
            Err(_) => sp_args(s@.skip(i as int), kinds@) is None,
        },
    decreases kinds@.len(),
{
    let ghost suffix = s@.skip(i as int);
    if kinds.len() == 0 {
        let out: Vec<Vec<u8>> = Vec::new();
        proof {
            lemma_deep_view_tokens(out);
            assert(out.deep_view() =~= Seq::<Seq<u8>>::empty());
        }
        return Ok((out, i));
    }
    if !(i < s.len() && s[i] == 32) {
        return Err(SicParserError::SyntaxError(i));
    }
    assert(suffix[0] == 32);
    let j = scan_token(s, i + 1);
    assert(suffix.skip(1) =~= s@.skip(i + 1));
    let ghost n = token_len(suffix.skip(1));
    assert(j - (i + 1) == n);
    if j == i + 1 {
        return Err(SicParserError::SyntaxError(i + 1));
    }
    let tok = copy_token(s, i + 1, j);
    assert(tok@ =~= suffix.skip(1).take(n));
    let kind = kinds[0];
    if !token_shape_ok(kind, tok.as_slice()) {
        return Err(SicParserError::SyntaxError(i + 1));
    }
    let rest_kinds: &[ArgKind] = &kinds[1..kinds.len()];
    assert(rest_kinds@ =~= kinds@.skip(1));
    assert(suffix.skip(1 + n) =~= s@.skip(j as int));
    match parse_args(s, j, rest_kinds) {
        Err(e) => Err(e),
        Ok((mut ts, e)) => {
            proof {
                lemma_deep_view_tokens(ts);
            }
            let ghost tail = ts.deep_view();
            ts.insert(0, tok);
            proof {
                lemma_deep_view_tokens(ts);
                assert(ts.deep_view() =~= seq![tok@] + tail);
            }
            Ok((ts, e))
        },
    }
}

/// The deep view of a statement list is its statements' raw readings,
/// elementwise.
pub proof fn lemma_deep_view_stmts(v: Vec<RawStmt>)
    ensures
        v.deep_view().len() == v@.len(),
        forall|i: int| 0 <= i < v@.len() ==> v.deep_view()[i] == v@[i]@,
{
}

/// The argument pattern of each scalar-argument script operation.
fn op_arg_kinds(op: OperationId) -> (r: Vec<ArgKind>)
    ensures
        r@ == arg_kinds(op),
{
    let mut v: Vec<ArgKind> = Vec::new();
    match op {
        OperationId::Blur => {
            v.push(ArgKind::Fp);
            assert(v@ =~= arg_kinds(op));
        },
        OperationId::Brighten => {
            v.push(ArgKind::Int);
            assert(v@ =~= arg_kinds(op));
        },
        OperationId::Contrast => {
            v.push(ArgKind::Fp);
            assert(v@ =~= arg_kinds(op));
        },
        OperationId::Crop => {
            v.push(ArgKind::Uint);
            v.push(ArgKind::Uint);
            v.push(ArgKind::Uint);
            v.push(ArgKind::Uint);
            assert(v@ =~= arg_kinds(op));
        },
        OperationId::HueRotate => {
            v.push(ArgKind::Int);
            assert(v@ =~= arg_kinds(op));
        },
        OperationId::Resize => {
            v.push(ArgKind::Uint);
            v.push(ArgKind::Uint);
            assert(v@ =~= arg_kinds(op));
        },
        OperationId::Unsharpen => {
            v.push(ArgKind::Fp);
            v.push(ArgKind::Int);
            assert(v@ =~= arg_kinds(op));
        },
        _ => {
            assert(v@ =~= arg_kinds(op));
        },
    }
    v
}

/// One separator inside a 3x3 filter argument list.
fn parse_f3_sep(s: &[u8], i: usize) -> (r: Result<(bool, usize), SicParserError>)
    requires
        i <= s@.len(),
    ensures
        match r {
            Ok((pipe, j)) => sp_sep(s@.skip(i as int)) == Some((pipe, (j - i) as int)) && i < j
                <= s@.len(),
            Err(_) => sp_sep(s@.skip(i as int)) is None,
        },
{
    let ghost suffix = s@.skip(i as int);
    if i < s.len() && s.len() - i >= 3 && s[i] == 32 && s[i + 1] == 124 && s[i + 2] == 32 {
        assert(suffix.len() >= 3 && suffix[0] == 32 && suffix[1] == 124 && suffix[2] == 32);
        Ok((true, i + 3))
    } else if i < s.len() && s[i] == 32 {
        assert(suffix.len() >= 1 && suffix[0] == 32);
        assert(!(suffix.len() >= 3 && suffix[1] == 124 && suffix[2] == 32));
        Ok((false, i + 1))
    } else {
        Err(SicParserError::SyntaxError(i))
    }
}

/// One fractional token inside a 3x3 filter argument list.
fn parse_f3_token(s: &[u8], i: usize) -> (r: Result<(Vec<u8>, usize), SicParserError>)
    requires
        i <= s@.len(),
    ensures
        match r {
            Ok((t, j)) => sp_fp_tok(s@.skip(i as int)) == Some((t@, (j - i) as int)) && i < j
                <= s@.len(),
            Err(_) => sp_fp_tok(s@.skip(i as int)) is None,
        },
{
    let j = scan_token(s, i);
    if j == i {
        return Err(SicParserError::SyntaxError(i));
    }
    let tok = copy_token(s, i, j);
    assert(tok@ =~= s@.skip(i as int).take((j - i) as int));
    if !crate::numeral::fp_shape_ok(tok.as_slice()) {
        return Err(SicParserError::SyntaxError(i));
    }
    Ok((tok, j))
}

/// `k` further (separator, token) pairs of a 3x3 filter argument list.
fn parse_f3_pairs(s: &[u8], i: usize, k: usize) -> (r: Result<
    (Vec<Vec<u8>>, Vec<bool>, usize),
    SicParserError,
>)
    requires
        i <= s@.len(),
    ensures
        match r {
            Ok((ts, ps, j)) => sp_f3_pairs(s@.skip(i as int), k as nat) == Some(
                (ts.deep_view(), ps@, (j - i) as int),
            ) && i <= j <= s@.len(),
            Err(_) => sp_f3_pairs(s@.skip(i as int), k as nat) is None,
        },
    decreases k,
{
    let ghost suffix = s@.skip(i as int);
    if k == 0 {
        let ts: Vec<Vec<u8>> = Vec::new();
        let ps: Vec<bool> = Vec::new();
        proof {
            lemma_deep_view_tokens(ts);
            assert(ts.deep_view() =~= Seq::<Seq<u8>>::empty());
            assert(ps@ =~= Seq::<bool>::empty());
        }
        return Ok((ts, ps, i));
    }
    let (pipe, j1) = parse_f3_sep(s, i)?;
    assert(suffix.skip((j1 - i) as int) =~= s@.skip(j1 as int));
    let (tok, j2) = parse_f3_token(s, j1)?;
    assert(suffix.skip((j2 - i) as int) =~= s@.skip(j2 as int));
    let (mut ts, mut ps, j3) = parse_f3_pairs(s, j2, k - 1)?;
    proof {
        lemma_deep_view_tokens(ts);
    }
    let ghost tail = ts.deep_view();
    ts.insert(0, tok);
    ps.insert(0, pipe);
    proof {
        lemma_deep_view_tokens(ts);
        assert(ts.deep_view() =~= seq![tok@] + tail);
    }
    Ok((ts, ps, j3))
}

/// The nine arguments of a 3x3 filter statement, with the pipe pattern
/// enforced.
fn parse_f3_args(s: &[u8], i: usize) -> (r: Result<(Vec<Vec<u8>>, usize), SicParserError>)
    requires
        i <= s@.len(),
    ensures
        match r {
            Ok((ts, j)) => sp_f3_args(s@.skip(i as int)) == Some((ts.deep_view(), (j - i) as int))
                && i <= j <= s@.len(),
            Err(_) => sp_f3_args(s@.skip(i as int)) is None,
        },
{
    let ghost suffix = s@.skip(i as int);
    if !(i < s.len() && s[i] == 32) {
        return Err(SicParserError::SyntaxError(i));
    }
    assert(suffix[0] == 32);
    assert(suffix.skip(1) =~= s@.skip(i + 1));
    let (t1, j1) = parse_f3_token(s, i + 1)?;
    assert(suffix.skip((j1 - i) as int) =~= s@.skip(j1 as int));
    let (mut ts, ps, j2) = parse_f3_pairs(s, j1, 8)?;
    if !(ps.len() == 8 && !ps[0] && !ps[1] && ps[2] == ps[5] && !ps[3] && !ps[4] && !ps[6]
        && !ps[7]) {
        assert(!pipes_ok(ps@));
        return Err(SicParserError::SyntaxError(i));
    }
    assert(pipes_ok(ps@));
    proof {
        lemma_deep_view_tokens(ts);
    }
    let ghost tail = ts.deep_view();
    ts.insert(0, t1);
    proof {
        lemma_deep_view_tokens(ts);
        assert(ts.deep_view() =~= seq![t1@] + tail);
    }
    Ok((ts, j2))
}

/// One whole statement starting at `i`, which must be a non-whitespace
/// position.
fn parse_statement(s: &[u8], i: usize) -> (r: Result<(RawStmt, usize), SicParserError>)
    requires
        i <= s@.len(),
    ensures
        match r {
            Ok((st, j)) => sp_statement(s@.skip(i as int)) == Some((st@, (j - i) as int)) && i < j
                <= s@.len(),
            Err(_) => sp_statement(s@.skip(i as int)) is None,
        },
{
    let ghost suffix = s@.skip(i as int);
    let j = scan_ident(s, i);
    if j == i {
        return Err(SicParserError::SyntaxError(i));
    }
    let ident = copy_token(s, i, j);
    assert(ident@ =~= suffix.take((j - i) as int));
    let op = match script_op_of(ident.as_slice()) {
        None => {
            return Err(SicParserError::SyntaxError(i));
        },
        Some(op) => op,
    };
    assert(suffix.skip((j - i) as int) =~= s@.skip(j as int));
    match op {
        OperationId::Filter3x3 => {
            let (tokens, e) = parse_f3_args(s, j)?;
            Ok((RawStmt { op, tokens }, e))
        },
        _ => {
            let kinds = op_arg_kinds(op);
            let (tokens, e) = parse_args(s, j, kinds.as_slice())?;
            Ok((RawStmt { op, tokens }, e))
        },
    }
}

/// The statements from position `i` (a statement start) to the end of the
/// script.
fn parse_stmts(s: &[u8], i: usize) -> (r: Result<Vec<RawStmt>, SicParserError>)
    requires
        i < s@.len(),
    ensures
        match r {
            Ok(v) => sp_stmts(s@.skip(i as int)) == Some(v.deep_view()),
            Err(_) => sp_stmts(s@.skip(i as int)) is None,
        },
    decreases s@.len() - i,
{
    let ghost suffix = s@.skip(i as int);
    let (st, j) = parse_statement(s, i)?;
    assert(suffix.skip((j - i) as int) =~= s@.skip(j as int));
    let k = scan_ws(s, j);
    let ghost rest = s@.skip(j as int);
    if k == s.len() {
        let mut v: Vec<RawStmt> = Vec::new();
        v.push(st);
        proof {
            lemma_deep_view_stmts(v);
            assert(v.deep_view() =~= seq![st@]);
        }
        return Ok(v);
    }
    assert(rest[(k - j) as int] == s@[k as int]);
    if s[k] != 59 {
        return Err(SicParserError::SyntaxError(k));
    }
    assert(rest.skip((k - j + 1) as int) =~= s@.skip(k + 1));
    let m = scan_ws(s, k + 1);
    assert(s@.skip(k + 1).skip((m - (k + 1)) as int) =~= s@.skip(m as int));
    if m == s.len() {
        let mut v: Vec<RawStmt> = Vec::new();
        v.push(st);
        proof {
            lemma_deep_view_stmts(v);
            assert(v.deep_view() =~= seq![st@]);
        }
        return Ok(v);
    }
    let mut v = parse_stmts(s, m)?;
    proof {
        lemma_deep_view_stmts(v);
    }
    let ghost tail = v.deep_view();
    v.insert(0, st);
    proof {
        lemma_deep_view_stmts(v);
        assert(v.deep_view() =~= seq![st@] + tail);
    }
    Ok(v)
}

/// The syntax layer's entry point: reads a script into its raw statements.
pub struct SICParser;

impl SICParser {
    /// Parses a script's text into raw statements, or fails on the first
    /// fragment that does not fit the grammar.
    pub fn parse(script: &str) -> (r: Result<Vec<RawStmt>, SicParserError>)
        ensures
            match r {
                Ok(v) => sp_script(script.spec_bytes()) == Some(v.deep_view()),
                Err(_) => sp_script(script.spec_bytes()) is None,
            },
    {
        Self::parse_bytes(script.as_bytes())
    }

    /// Parses a script given as bytes into raw statements.
    pub fn parse_bytes(script: &[u8]) -> (r: Result<Vec<RawStmt>, SicParserError>)
        ensures
            match r {
                Ok(v) => sp_script(script@) == Some(v.deep_view()),
                Err(_) => sp_script(script@) is None,
            },
    {
        let w = scan_ws(script, 0);
        assert(script@.skip(0) =~= script@);
        if w == script.len() {
            let v: Vec<RawStmt> = Vec::new();
            proof {
                lemma_deep_view_stmts(v);
                assert(v.deep_view() =~= Seq::<RawStmtV>::empty());
            }
            Ok(v)
        } else {
            parse_stmts(script, w)
        }
    }
}

/// A 3x3 convolution kernel's nine entries, row-major.
#[derive(Debug, Clone, Copy, PartialEq, Eq, Structural)]
pub struct FilterKernel {
    pub e0: FpLit,
    pub e1: FpLit,
    pub e2: FpLit,
    pub e3: FpLit,
    pub e4: FpLit,
    pub e5: FpLit,
    pub e6: FpLit,
    pub e7: FpLit,
    pub e8: FpLit,
}

impl FilterKernel {
    pub fn new(
        e0: FpLit,
        e1: FpLit,
        e2: FpLit,
        e3: FpLit,
        e4: FpLit,
        e5: FpLit,
        e6: FpLit,
        e7: FpLit,
        e8: FpLit,
    ) -> (r: FilterKernel)
        ensures
            r == (FilterKernel { e0, e1, e2, e3, e4, e5, e6, e7, e8 }),
    {
        FilterKernel { e0, e1, e2, e3, e4, e5, e6, e7, e8 }
    }
}

/// A typed script operation: the compiled form of one statement.
#[derive(Debug, Clone, Copy, PartialEq, Eq, Structural)]
pub enum Operation {
    Blur(FpLit),
    Brighten(i32),
    Contrast(FpLit),
    Crop(u32, u32, u32, u32),
    Filter3x3(FilterKernel),
    FlipHorizontal,
    FlipVertical,
    GrayScale,
    HueRotate(i32),
    Invert,
    Resize(u32, u32),
    Rotate90,
    Rotate180,
    Rotate270,
    Unsharpen(FpLit, i32),
}

/// Well-formedness of a typed operation: its fractional arguments are
/// normalized.
pub open spec fn op_wf(op: Operation) -> bool {
    match op {
        Operation::Blur(x) => x.wf(),
        Operation::Contrast(x) => x.wf(),
        Operation::Filter3x3(k) => k.e0.wf() && k.e1.wf() && k.e2.wf() && k.e3.wf() && k.e4.wf()
            && k.e5.wf() && k.e6.wf() && k.e7.wf() && k.e8.wf(),
        Operation::Unsharpen(x, _) => x.wf(),
        _ => true,
    }
}

/// The typed meaning of one raw statement: each token is coerced to the
/// declared argument type of the named operation; a wrong token count, a
/// malformed token, or an out-of-range value is a coercion failure.
pub open spec fn sp_coerce_stmt(st: RawStmtV) -> Option<Operation> {
    let ts = st.1;
    match st.0 {
        OperationId::Blur => if ts.len() == 1 && spec_parse_fp(ts[0]) is Some {
            Some(Operation::Blur(spec_parse_fp(ts[0]).unwrap()))
        } else {
            None
        },
        OperationId::Brighten => if ts.len() == 1 && spec_parse_i32(ts[0]) is Some {
            Some(Operation::Brighten(spec_parse_i32(ts[0]).unwrap()))
        } else {
            None
        },
        OperationId::Contrast => if ts.len() == 1 && spec_parse_fp(ts[0]) is Some {
            Some(Operation::Contrast(spec_parse_fp(ts[0]).unwrap()))
        } else {
            None
        },
        OperationId::Crop => if ts.len() == 4 && spec_parse_u32(ts[0]) is Some && spec_parse_u32(
            ts[1],
        ) is Some && spec_parse_u32(ts[2]) is Some && spec_parse_u32(ts[3]) is Some {
            Some(
                Operation::Crop(
                    spec_parse_u32(ts[0]).unwrap(),
                    spec_parse_u32(ts[1]).unwrap(),
                    spec_parse_u32(ts[2]).unwrap(),
                    spec_parse_u32(ts[3]).unwrap(),
                ),
            )
        } else {
            None
        },
        OperationId::Filter3x3 => if ts.len() == 9 && spec_parse_fp(ts[0]) is Some
            && spec_parse_fp(ts[1]) is Some && spec_parse_fp(ts[2]) is Some && spec_parse_fp(
            ts[3],
        ) is Some && spec_parse_fp(ts[4]) is Some && spec_parse_fp(ts[5]) is Some
            && spec_parse_fp(ts[6]) is Some && spec_parse_fp(ts[7]) is Some && spec_parse_fp(
            ts[8],
        ) is Some {
            Some(
                Operation::Filter3x3(
                    FilterKernel {
                        e0: spec_parse_fp(ts[0]).unwrap(),
                        e1: spec_parse_fp(ts[1]).unwrap(),
                        e2: spec_parse_fp(ts[2]).unwrap(),
                        e3: spec_parse_fp(ts[3]).unwrap(),
                        e4: spec_parse_fp(ts[4]).unwrap(),
                        e5: spec_parse_fp(ts[5]).unwrap(),
                        e6: spec_parse_fp(ts[6]).unwrap(),
                        e7: spec_parse_fp(ts[7]).unwrap(),
                        e8: spec_parse_fp(ts[8]).unwrap(),
                    },
                ),
            )
        } else {
            None
        },
        OperationId::FlipHorizontal => if ts.len() == 0 {
            Some(Operation::FlipHorizontal)
        } else {
            None
        },
        OperationId::FlipVertical => if ts.len() == 0 {
            Some(Operation::FlipVertical)
        } else {
            None
        },
        OperationId::Grayscale => if ts.len() == 0 {
            Some(Operation::GrayScale)
        } else {
            None
        },
        OperationId::HueRotate => if ts.len() == 1 && spec_parse_i32(ts[0]) is Some {
            Some(Operation::HueRotate(spec_parse_i32(ts[0]).unwrap()))
        } else {
            None
        },
        OperationId::Invert => if ts.len() == 0 {
            Some(Operation::Invert)
        } else {
            None
        },
        OperationId::Resize => if ts.len() == 2 && spec_parse_u32(ts[0]) is Some && spec_parse_u32(
            ts[1],
        ) is Some {
            Some(Operation::Resize(spec_parse_u32(ts[0]).unwrap(), spec_parse_u32(ts[1]).unwrap()))
        } else {
            None
        },
        OperationId::Rotate90 => if ts.len() == 0 {
            Some(Operation::Rotate90)
        } else {
            None
        },
        OperationId::Rotate180 => if ts.len() == 0 {
            Some(Operation::Rotate180)
        } else {
            None
        },
        OperationId::Rotate270 => if ts.len() == 0 {
            Some(Operation::Rotate270)
        } else {
            None
        },
        OperationId::Unsharpen => if ts.len() == 2 && spec_parse_fp(ts[0]) is Some
            && spec_parse_i32(ts[1]) is Some {
            Some(
                Operation::Unsharpen(spec_parse_fp(ts[0]).unwrap(), spec_parse_i32(ts[1]).unwrap()),
            )
        } else {
            None
        },
        _ => None,
    }
}

/// The typed meaning of a raw statement list, in order; the first failing
/// statement fails the whole compilation.
pub open spec fn sp_coerce_all(sts: Seq<RawStmtV>) -> Option<Seq<Operation>>
    decreases sts.len(),
{
    if sts.len() == 0 {
        Some(Seq::empty())
    } else {
        match sp_coerce_stmt(sts[0]) {
            None => None,
            Some(op) => match sp_coerce_all(sts.skip(1)) {
                None => None,
                Some(r) => Some(seq![op] + r),
            },
        }
    }
}

/// The message a failing statement coerces to: a statement whose operation
/// the script language cannot spell has its own fixed message, and a
/// statement whose token fails its type check another.
pub open spec fn spec_coerce_err(op: OperationId) -> Seq<char> {
    if is_script_op(op) {
        "Unable to parse value"@
    } else {
        "Parse failed: Operation doesn't exist"@
    }
}

/// The operation of the first statement that fails coercion, in source
/// order; meaningful only when some statement fails.
pub open spec fn sp_first_failing_op(sts: Seq<RawStmtV>) -> OperationId
    decreases sts.len(),
{
    if sts.len() == 0 {
        OperationId::Blur
    } else if sp_coerce_stmt(sts[0]) is None {
        sts[0].0
    } else {
        sp_first_failing_op(sts.skip(1))
    }
}

fn value_error() -> (r: String)
    ensures
        r@ == "Unable to parse value"@,
{
    String::from_str("Unable to parse value")
}

/// Reads the single fractional argument of a statement.
fn parse_unop_f32(stmt: &RawStmt) -> (r: Result<FpLit, String>)
    ensures
        match r {
            Ok(v) => stmt@.1.len() == 1 && spec_parse_fp(stmt@.1[0]) == Some(v),
            Err(e) => !(stmt@.1.len() == 1 && spec_parse_fp(stmt@.1[0]) is Some) && e@
                == "Unable to parse value"@,
        },
{
    proof {
        lemma_deep_view_tokens(stmt.tokens);
    }
    if stmt.tokens.len() != 1 {
        return Err(value_error());
    }
    match crate::numeral::parse_fp_token(stmt.tokens[0].as_slice()) {
        Some(v) => Ok(v),
        None => Err(value_error()),
    }
}

/// Reads the single signed integer argument of a statement.
fn parse_unop_i32(stmt: &RawStmt) -> (r: Result<i32, String>)
    ensures
        match r {
            Ok(v) => stmt@.1.len() == 1 && spec_parse_i32(stmt@.1[0]) == Some(v),
            Err(e) => !(stmt@.1.len() == 1 && spec_parse_i32(stmt@.1[0]) is Some) && e@
                == "Unable to parse value"@,
        },
{
    proof {
        lemma_deep_view_tokens(stmt.tokens);
    }
    if stmt.tokens.len() != 1 {
        return Err(value_error());
    }
    match crate::numeral::parse_i32_token(stmt.tokens[0].as_slice()) {
        Some(v) => Ok(v),
        None => Err(value_error()),
    }
}

/// Reads the two unsigned arguments of a statement, each reported on its own.
fn parse_binop_u32(stmt: &RawStmt) -> (r: (Result<u32, String>, Result<u32, String>))
    ensures
        match r.0 {
            Ok(v) => stmt@.1.len() == 2 && spec_parse_u32(stmt@.1[0]) == Some(v),
            Err(e) => !(stmt@.1.len() == 2 && spec_parse_u32(stmt@.1[0]) is Some) && e@
                == "Unable to parse value"@,
        },
        match r.1 {
            Ok(v) => stmt@.1.len() == 2 && spec_parse_u32(stmt@.1[1]) == Some(v),
            Err(e) => !(stmt@.1.len() == 2 && spec_parse_u32(stmt@.1[1]) is Some) && e@
                == "Unable to parse value"@,
        },
{
    proof {
        lemma_deep_view_tokens(stmt.tokens);
    }
    if stmt.tokens.len() != 2 {
        return (Err(value_error()), Err(value_error()));
    }
    let x = match crate::numeral::parse_u32_token(stmt.tokens[0].as_slice()) {
        Some(v) => Ok(v),
        None => Err(value_error()),
    };
    let y = match crate::numeral::parse_u32_token(stmt.tokens[1].as_slice()) {
        Some(v) => Ok(v),
        None => Err(value_error()),
    };
    (x, y)
}

/// Reads a fractional argument and a signed integer argument, each reported
/// on its own.
fn parse_binop_f32_i32(stmt: &RawStmt) -> (r: (Result<FpLit, String>, Result<i32, String>))
    ensures
        match r.0 {
            Ok(v) => stmt@.1.len() == 2 && spec_parse_fp(stmt@.1[0]) == Some(v),
            Err(e) => !(stmt@.1.len() == 2 && spec_parse_fp(stmt@.1[0]) is Some) && e@
                == "Unable to parse value"@,
        },
        match r.1 {
            Ok(v) => stmt@.1.len() == 2 && spec_parse_i32(stmt@.1[1]) == Some(v),
            Err(e) => !(stmt@.1.len() == 2 && spec_parse_i32(stmt@.1[1]) is Some) && e@
                == "Unable to parse value"@,
        },
{
    proof {
        lemma_deep_view_tokens(stmt.tokens);
    }
    if stmt.tokens.len() != 2 {
        return (Err(value_error()), Err(value_error()));
    }
    let x = match crate::numeral::parse_fp_token(stmt.tokens[0].as_slice()) {
        Some(v) => Ok(v),
        None => Err(value_error()),
    };
    let y = match crate::numeral::parse_i32_token(stmt.tokens[1].as_slice()) {
        Some(v) => Ok(v),
        None => Err(value_error()),
    };
    (x, y)
}

/// The four corner coordinates of a crop statement, each reported on its own.
pub type QuadOpU32 = (Result<u32, String>, Result<u32, String>, Result<u32, String>, Result<
    u32,
    String,
>);

fn parse_quad_op_u32(stmt: &RawStmt) -> (r: QuadOpU32)
    ensures
        match r.0 {
            Ok(v) => stmt@.1.len() == 4 && spec_parse_u32(stmt@.1[0]) == Some(v),
            Err(e) => !(stmt@.1.len() == 4 && spec_parse_u32(stmt@.1[0]) is Some) && e@
                == "Unable to parse value"@,
        },
        match r.1 {
            Ok(v) => stmt@.1.len() == 4 && spec_parse_u32(stmt@.1[1]) == Some(v),
            Err(e) => !(stmt@.1.len() == 4 && spec_parse_u32(stmt@.1[1]) is Some) && e@
                == "Unable to parse value"@,
        },
        match r.2 {
            Ok(v) => stmt@.1.len() == 4 && spec_parse_u32(stmt@.1[2]) == Some(v),
            Err(e) => !(stmt@.1.len() == 4 && spec_parse_u32(stmt@.1[2]) is Some) && e@
                == "Unable to parse value"@,
        },
        match r.3 {
            Ok(v) => stmt@.1.len() == 4 && spec_parse_u32(stmt@.1[3]) == Some(v),
            Err(e) => !(stmt@.1.len() == 4 && spec_parse_u32(stmt@.1[3]) is Some) && e@
                == "Unable to parse value"@,
        },
{
    proof {
        lemma_deep_view_tokens(stmt.tokens);
    }
    if stmt.tokens.len() != 4 {
        return (Err(value_error()), Err(value_error()), Err(value_error()), Err(value_error()));
    }
    let a = match crate::numeral::parse_u32_token(stmt.tokens[0].as_slice()) {
        Some(v) => Ok(v),
        None => Err(value_error()),
    };
    let b = match crate::numeral::parse_u32_token(stmt.tokens[1].as_slice()) {
        Some(v) => Ok(v),
        None => Err(value_error()),
    };
    let c = match crate::numeral::parse_u32_token(stmt.tokens[2].as_slice()) {
        Some(v) => Ok(v),
        None => Err(value_error()),
    };
    let d = match crate::numeral::parse_u32_token(stmt.tokens[3].as_slice()) {
        Some(v) => Ok(v),
        None => Err(value_error()),
    };
    (a, b, c, d)
}

/// Joins the four corner readings of a crop statement into one operation,
/// keeping the first failure.
pub fn parse_4_tuple_crop_result(tuple: QuadOpU32) -> (r: Result<Operation, String>)
    ensures
        match r {
            Ok(op) => tuple.0 is Ok && tuple.1 is Ok && tuple.2 is Ok && tuple.3 is Ok && op
                == Operation::Crop(
                tuple.0.unwrap(),
                tuple.1.unwrap(),
                tuple.2.unwrap(),
                tuple.3.unwrap(),
            ),
            Err(e) => match (tuple.0, tuple.1, tuple.2, tuple.3) {
                (Err(x), _, _, _) => e == x,
                (Ok(_), Err(x), _, _) => e == x,
                (Ok(_), Ok(_), Err(x), _) => e == x,
                (Ok(_), Ok(_), Ok(_), Err(x)) => e == x,
                _ => false,
            },
        },
{
    let (xl, yl, xr, yr) = tuple;
    match (xl, yl, xr, yr) {
        (Ok(a), Ok(b), Ok(c), Ok(d)) => Ok(Operation::Crop(a, b, c, d)),
        (Err(e), _, _, _) => Err(e),
        (_, Err(e), _, _) => Err(e),
        (_, _, Err(e), _) => Err(e),
        (_, _, _, Err(e)) => Err(e),
    }
}

/// Reads the nine fractional entries of a 3x3 filter statement.
fn parse_triplet3x_f32(stmt: &RawStmt) -> (r: Result<FilterKernel, String>)
    ensures
        match r {
            Ok(k) => stmt@.1.len() == 9 && spec_parse_fp(stmt@.1[0]) == Some(k.e0)
                && spec_parse_fp(stmt@.1[1]) == Some(k.e1) && spec_parse_fp(stmt@.1[2]) == Some(
                k.e2,
            ) && spec_parse_fp(stmt@.1[3]) == Some(k.e3) && spec_parse_fp(stmt@.1[4]) == Some(k.e4)
                && spec_parse_fp(stmt@.1[5]) == Some(k.e5) && spec_parse_fp(stmt@.1[6]) == Some(
                k.e6,
            ) && spec_parse_fp(stmt@.1[7]) == Some(k.e7) && spec_parse_fp(stmt@.1[8]) == Some(
                k.e8,
            ),
            Err(e) => !(stmt@.1.len() == 9 && spec_parse_fp(stmt@.1[0]) is Some && spec_parse_fp(
                stmt@.1[1],
            ) is Some && spec_parse_fp(stmt@.1[2]) is Some && spec_parse_fp(stmt@.1[3]) is Some
                && spec_parse_fp(stmt@.1[4]) is Some && spec_parse_fp(stmt@.1[5]) is Some
                && spec_parse_fp(stmt@.1[6]) is Some && spec_parse_fp(stmt@.1[7]) is Some
                && spec_parse_fp(stmt@.1[8]) is Some) && e@ == "Unable to parse value"@,
        },
{
    proof {
        lemma_deep_view_tokens(stmt.tokens);
    }
    if stmt.tokens.len() != 9 {
        return Err(value_error());
    }
    let mut vals: Vec<FpLit> = Vec::new();
    let mut i: usize = 0;
    while i < 9
        invariant
            stmt.tokens@.len() == 9,
            stmt@.1.len() == 9,
            0 <= i <= 9,
            vals@.len() == i,
            forall|j: int| 0 <= j < i ==> spec_parse_fp(stmt@.1[j]) == Some(#[trigger] vals@[j]),
            forall|j: int| 0 <= j < stmt.tokens@.len() ==> stmt@.1[j] == #[trigger] stmt.tokens@[j]@,
        decreases 9 - i,
    {
        match crate::numeral::parse_fp_token(stmt.tokens[i].as_slice()) {
            Some(v) => {
                vals.push(v);
            },
            None => {
                return Err(value_error());
            },
        }
        i = i + 1;
    }
    Ok(
        FilterKernel {
            e0: vals[0],
            e1: vals[1],
            e2: vals[2],
            e3: vals[3],
            e4: vals[4],
            e5: vals[5],
            e6: vals[6],
            e7: vals[7],
            e8: vals[8],
        },
    )
}

/// Types the nullary statements.
fn coerce_nullary(stmt: &RawStmt, op: Operation) -> (r: Result<Operation, String>)
    ensures
        match r {
            Ok(o) => stmt@.1.len() == 0 && o == op,
            Err(e) => stmt@.1.len() != 0 && e@ == "Unable to parse value"@,
        },
{
    proof {
        lemma_deep_view_tokens(stmt.tokens);
    }
    if stmt.tokens.len() == 0 {
        Ok(op)
    } else {
        Err(value_error())
    }
}

/// Types one raw statement.
#[verifier::rlimit(100)]
fn coerce_statement(stmt: &RawStmt) -> (r: Result<Operation, String>)
    ensures
        match r {
            Ok(op) => sp_coerce_stmt(stmt@) == Some(op),
            Err(e) => sp_coerce_stmt(stmt@) is None && e@ == spec_coerce_err(stmt@.0),
        },
{
    match stmt.op {
        OperationId::Blur => match parse_unop_f32(stmt) {
            Ok(v) => Ok(Operation::Blur(v)),
            Err(e) => Err(e),
        },
        OperationId::Brighten => match parse_unop_i32(stmt) {
            Ok(v) => Ok(Operation::Brighten(v)),
            Err(e) => Err(e),
        },
        OperationId::Contrast => match parse_unop_f32(stmt) {
            Ok(v) => Ok(Operation::Contrast(v)),
            Err(e) => Err(e),
        },
        OperationId::Crop => parse_4_tuple_crop_result(parse_quad_op_u32(stmt)),
        OperationId::Filter3x3 => match parse_triplet3x_f32(stmt) {
            Ok(k) => Ok(Operation::Filter3x3(k)),
            Err(e) => Err(e),
        },
        OperationId::FlipHorizontal => coerce_nullary(stmt, Operation::FlipHorizontal),
        OperationId::FlipVertical => coerce_nullary(stmt, Operation::FlipVertical),
        OperationId::Grayscale => coerce_nullary(stmt, Operation::GrayScale),
        OperationId::HueRotate => match parse_unop_i32(stmt) {
            Ok(v) => Ok(Operation::HueRotate(v)),
            Err(e) => Err(e),
        },
        OperationId::Invert => coerce_nullary(stmt, Operation::Invert),
        OperationId::Resize => {
            let (x, y) = parse_binop_u32(stmt);
            match (x, y) {
                (Ok(a), Ok(b)) => Ok(Operation::Resize(a, b)),
                (Err(e), _) => Err(e),
                (_, Err(e)) => Err(e),
            }
        },
        OperationId::Rotate90 => coerce_nullary(stmt, Operation::Rotate90),
        OperationId::Rotate180 => coerce_nullary(stmt, Operation::Rotate180),
        OperationId::Rotate270 => coerce_nullary(stmt, Operation::Rotate270),
        OperationId::Unsharpen => {
            let (x, y) = parse_binop_f32_i32(stmt);
            match (x, y) {
                (Ok(a), Ok(b)) => Ok(Operation::Unsharpen(a, b)),
                (Err(e), _) => Err(e),
                (_, Err(e)) => Err(e),
            }
        },
        _ => Err(String::from_str("Parse failed: Operation doesn't exist")),
    }
}

fn coerce_from(stmts: &Vec<RawStmt>, i: usize) -> (r: Result<Vec<Operation>, String>)
    requires
        i <= stmts@.len(),
    ensures
        match r {
            Ok(v) => sp_coerce_all(stmts.deep_view().skip(i as int)) == Some(v@),
            Err(e) => sp_coerce_all(stmts.deep_view().skip(i as int)) is None && e@
                == spec_coerce_err(sp_first_failing_op(stmts.deep_view().skip(i as int))),
        },
    decreases stmts@.len() - i,
{
    proof {
        lemma_deep_view_stmts(*stmts);
    }
    let ghost suffix = stmts.deep_view().skip(i as int);
    if i == stmts.len() {
        let v: Vec<Operation> = Vec::new();
        assert(suffix =~= Seq::<RawStmtV>::empty());
        return Ok(v);
    }
    assert(suffix[0] == stmts.deep_view()[i as int]);
    let op = coerce_statement(&stmts[i])?;
    assert(suffix.skip(1) =~= stmts.deep_view().skip(i + 1));
    let mut v = coerce_from(stmts, i + 1)?;
    v.insert(0, op);
    assert(v@ =~= seq![op] + v@.skip(1));
    Ok(v)
}

/// Types every raw statement of a script, in order; the first statement that
/// fails coercion fails the whole compilation, no partial operation list is
/// produced, and the error carries the message of that first failure: one
/// fixed message for a statement the script language cannot spell, another
/// for a token that fails its type check.
pub fn parse_image_operations(stmts: Vec<RawStmt>) -> (r: Result<Vec<Operation>, String>)
    ensures
        match r {
            Ok(v) => sp_coerce_all(stmts.deep_view()) == Some(v@),
            Err(e) => sp_coerce_all(stmts.deep_view()) is None && e@ == spec_coerce_err(
                sp_first_failing_op(stmts.deep_view()),
            ),
        },
{
    assert(stmts.deep_view().skip(0) =~= stmts.deep_view());
    coerce_from(&stmts, 0)
}

/// Writes the script spelling of an operation name onto `out`.
fn push_script_name(out: &mut Vec<u8>, op: OperationId)
    requires
        is_script_op(op),
    ensures
        final(out)@ == old(out)@ + script_name(op),
{
    match op {
        OperationId::Blur => {
            out.push(98);
            out.push(108);
            out.push(117);
            out.push(114);
            assert(out@ =~= old(out)@ + script_name(op));
        },
        OperationId::Brighten => {
            out.push(98);
            out.push(114);
            out.push(105);
            out.push(103);
            out.push(104);
            out.push(116);
            out.push(101);
            out.push(110);
            assert(out@ =~= old(out)@ + script_name(op));
        },
        OperationId::Contrast => {
            out.push(99);
            out.push(111);
            out.push(110);
            out.push(116);
            out.push(114);
            out.push(97);
            out.push(115);
            out.push(116);
            assert(out@ =~= old(out)@ + script_name(op));
        },
        OperationId::Crop => {
            out.push(99);
            out.push(114);
            out.push(111);
            out.push(112);
            assert(out@ =~= old(out)@ + script_name(op));
        },
        OperationId::Filter3x3 => {
            out.push(102);
            out.push(105);
            out.push(108);
            out.push(116);
            out.push(101);
            out.push(114);
            out.push(51);
            out.push(120);
            out.push(51);
            assert(out@ =~= old(out)@ + script_name(op));
        },
        OperationId::FlipHorizontal => {
            out.push(102);
            out.push(108);
            out.push(105);
            out.push(112);
            out.push(104);
            assert(out@ =~= old(out)@ + script_name(op));
        },
        OperationId::FlipVertical => {
            out.push(102);
            out.push(108);
            out.push(105);
            out.push(112);
            out.push(118);
            assert(out@ =~= old(out)@ + script_name(op));
        },
        OperationId::Grayscale => {
            out.push(103);
            out.push(114);
            out.push(97);
            out.push(121);
            out.push(115);
            out.push(99);
            out.push(97);
            out.push(108);
            out.push(101);
            assert(out@ =~= old(out)@ + script_name(op));
        },
        OperationId::HueRotate => {
            out.push(104);
            out.push(117);
            out.push(101);
            out.push(114);
            out.push(111);
            out.push(116);
            out.push(97);
            out.push(116);
            out.push(101);
            assert(out@ =~= old(out)@ + script_name(op));
        },
        OperationId::Invert => {
            out.push(105);
            out.push(110);
            out.push(118);
            out.push(101);
            out.push(114);
            out.push(116);
            assert(out@ =~= old(out)@ + script_name(op));
        },
        OperationId::Resize => {
            out.push(114);
            out.push(101);
            out.push(115);
            out.push(105);
            out.push(122);
            out.push(101);
            assert(out@ =~= old(out)@ + script_name(op));
        },
        OperationId::Rotate90 => {
            out.push(114);
            out.push(111);
            out.push(116);
            out.push(97);
            out.push(116);
            out.push(101);
            out.push(57);
            out.push(48);
            assert(out@ =~= old(out)@ + script_name(op));
        },
        OperationId::Rotate180 => {
            out.push(114);
            out.push(111);
            out.push(116);
            out.push(97);
            out.push(116);
            out.push(101);
            out.push(49);
            out.push(56);
            out.push(48);
            assert(out@ =~= old(out)@ + script_name(op));
        },
        OperationId::Rotate270 => {
            out.push(114);
            out.push(111);
            out.push(116);
            out.push(97);
            out.push(116);
            out.push(101);
            out.push(50);
            out.push(55);
            out.push(48);
            assert(out@ =~= old(out)@ + script_name(op));
        },
        OperationId::Unsharpen => {
            out.push(117);
            out.push(110);
            out.push(115);
            out.push(104);
            out.push(97);
            out.push(114);
            out.push(112);
            out.push(101);
            out.push(110);
            assert(out@ =~= old(out)@ + script_name(op));
        },
        _ => {
            proof {
                assert(false);
            }
        },
    }
}


/// The operation identifier a typed operation belongs to.
pub open spec fn op_kind(op: Operation) -> OperationId {
    match op {
        Operation::Blur(_) => OperationId::Blur,
        Operation::Brighten(_) => OperationId::Brighten,
        Operation::Contrast(_) => OperationId::Contrast,
        Operation::Crop(_, _, _, _) => OperationId::Crop,
        Operation::Filter3x3(_) => OperationId::Filter3x3,
        Operation::FlipHorizontal => OperationId::FlipHorizontal,
        Operation::FlipVertical => OperationId::FlipVertical,
        Operation::GrayScale => OperationId::Grayscale,
        Operation::HueRotate(_) => OperationId::HueRotate,
        Operation::Invert => OperationId::Invert,
        Operation::Resize(_, _) => OperationId::Resize,
        Operation::Rotate90 => OperationId::Rotate90,
        Operation::Rotate180 => OperationId::Rotate180,
        Operation::Rotate270 => OperationId::Rotate270,
        Operation::Unsharpen(_, _) => OperationId::Unsharpen,
    }
}

/// The canonical token of a signed integer argument.
pub open spec fn i32_bytes(v: i32) -> Seq<u8> {
    if v < 0 {
        seq![45u8] + crate::numeral::dec_digits((-(v as int)) as nat)
    } else {
        crate::numeral::dec_digits(v as nat)
    }
}

/// The canonical tokens of a typed operation, in argument order.
pub open spec fn tokens_of(op: Operation) -> Seq<Seq<u8>> {
    match op {
        Operation::Blur(x) => seq![crate::numeral::fp_bytes(x)],
        Operation::Brighten(v) => seq![i32_bytes(v)],
        Operation::Contrast(x) => seq![crate::numeral::fp_bytes(x)],
        Operation::Crop(a, b, c, d) => seq![
            crate::numeral::dec_digits(a as nat),
            crate::numeral::dec_digits(b as nat),
            crate::numeral::dec_digits(c as nat),
            crate::numeral::dec_digits(d as nat),
        ],
        Operation::Filter3x3(k) => seq![
            crate::numeral::fp_bytes(k.e0),
            crate::numeral::fp_bytes(k.e1),
            crate::numeral::fp_bytes(k.e2),
            crate::numeral::fp_bytes(k.e3),
            crate::numeral::fp_bytes(k.e4),
            crate::numeral::fp_bytes(k.e5),
            crate::numeral::fp_bytes(k.e6),
            crate::numeral::fp_bytes(k.e7),
            crate::numeral::fp_bytes(k.e8),
        ],
        Operation::FlipHorizontal => Seq::empty(),
        Operation::FlipVertical => Seq::empty(),
        Operation::GrayScale => Seq::empty(),
        Operation::HueRotate(v) => seq![i32_bytes(v)],
        Operation::Invert => Seq::empty(),
        Operation::Resize(a, b) => seq![
            crate::numeral::dec_digits(a as nat),
            crate::numeral::dec_digits(b as nat),
        ],
        Operation::Rotate90 => Seq::empty(),
        Operation::Rotate180 => Seq::empty(),
        Operation::Rotate270 => Seq::empty(),
        Operation::Unsharpen(x, v) => seq![crate::numeral::fp_bytes(x), i32_bytes(v)],
    }
}

/// The raw statement a typed operation serializes to.
pub open spec fn raw_of(op: Operation) -> RawStmtV {
    (op_kind(op), tokens_of(op))
}

/// The raw statements a typed operation list serializes to, in order.
pub open spec fn raws_of(l: Seq<Operation>) -> Seq<RawStmtV>
    decreases l.len(),
{
    if l.len() == 0 {
        Seq::empty()
    } else {
        seq![raw_of(l[0])] + raws_of(l.skip(1))
    }
}

/// The canonical text of an argument list: each token preceded by one space.
pub open spec fn argjoin(ts: Seq<Seq<u8>>) -> Seq<u8>
    decreases ts.len(),
{
    if ts.len() == 0 {
        Seq::empty()
    } else {
        seq![32u8] + ts[0] + argjoin(ts.skip(1))
    }
}

pub proof fn lemma_argjoin_concat(a: Seq<Seq<u8>>, b: Seq<Seq<u8>>)
    ensures
        argjoin(a + b) == argjoin(a) + argjoin(b),
    decreases a.len(),
{
    if a.len() == 0 {
        assert(a + b =~= b);
        assert(argjoin(a) + argjoin(b) =~= argjoin(b));
    } else {
        lemma_argjoin_concat(a.skip(1), b);
        assert((a + b).skip(1) =~= a.skip(1) + b);
        assert(argjoin(a + b) =~= argjoin(a) + argjoin(b));
    }
}

/// The canonical text of one statement: the operation's name, then its
/// arguments.
pub open spec fn stmt_bytes(op: Operation) -> Seq<u8> {
    script_name(op_kind(op)) + argjoin(tokens_of(op))
}

/// The canonical text of a compiled program: each statement closed by `;`.
pub open spec fn script_bytes(l: Seq<Operation>) -> Seq<u8>
    decreases l.len(),
{
    if l.len() == 0 {
        Seq::empty()
    } else {
        stmt_bytes(l[0]) + seq![59u8] + script_bytes(l.skip(1))
    }
}

/// Builds the canonical tokens of one operation.
fn op_tokens(op: &Operation) -> (r: Vec<Vec<u8>>)
    ensures
        r.deep_view() == tokens_of(*op),
{
    let mut toks: Vec<Vec<u8>> = Vec::new();
    match op {
        Operation::Blur(x) => {
            toks.push(fp_token(*x));
        },
        Operation::Brighten(v) => {
            toks.push(i32_token(*v));
        },
        Operation::Contrast(x) => {
            toks.push(fp_token(*x));
        },
        Operation::Crop(a, b, c, d) => {
            toks.push(u32_token(*a));
            toks.push(u32_token(*b));
            toks.push(u32_token(*c));
            toks.push(u32_token(*d));
        },
        Operation::Filter3x3(k) => {
            toks.push(fp_token(k.e0));
            toks.push(fp_token(k.e1));
            toks.push(fp_token(k.e2));
            toks.push(fp_token(k.e3));
            toks.push(fp_token(k.e4));
            toks.push(fp_token(k.e5));
            toks.push(fp_token(k.e6));
            toks.push(fp_token(k.e7));
            toks.push(fp_token(k.e8));
        },
        Operation::FlipHorizontal => {},
        Operation::FlipVertical => {},
        Operation::GrayScale => {},
        Operation::HueRotate(v) => {
            toks.push(i32_token(*v));
        },
        Operation::Invert => {},
        Operation::Resize(a, b) => {
            toks.push(u32_token(*a));
            toks.push(u32_token(*b));
        },
        Operation::Rotate90 => {},
        Operation::Rotate180 => {},
        Operation::Rotate270 => {},
        Operation::Unsharpen(x, v) => {
            toks.push(fp_token(*x));
            toks.push(i32_token(*v));
        },
    }
    proof {
        lemma_deep_view_tokens(toks);
        assert(toks.deep_view() =~= tokens_of(*op));
    }
    toks
}

fn fp_token(x: FpLit) -> (r: Vec<u8>)
    ensures
        r@ == crate::numeral::fp_bytes(x),
{
    let mut t: Vec<u8> = Vec::new();
    crate::numeral::push_fp_bytes(&mut t, x);
    assert(t@ =~= crate::numeral::fp_bytes(x));
    t
}

fn u32_token(n: u32) -> (r: Vec<u8>)
    ensures
        r@ == crate::numeral::dec_digits(n as nat),
{
    let mut t: Vec<u8> = Vec::new();
    crate::numeral::push_dec_digits(&mut t, n as u128);
    assert(t@ =~= crate::numeral::dec_digits(n as nat));
    t
}

fn i32_token(v: i32) -> (r: Vec<u8>)
    ensures
        r@ == i32_bytes(v),
{
    let mut t: Vec<u8> = Vec::new();
    if v < 0 {
        t.push(45);
        let m: u128 = (-(v as i64)) as u128;
        crate::numeral::push_dec_digits(&mut t, m);
        assert(t@ =~= i32_bytes(v));
    } else {
        crate::numeral::push_dec_digits(&mut t, v as u128);
        assert(t@ =~= i32_bytes(v));
    }
    t
}

/// Writes an argument list onto `out`, one space before each token.
fn push_args(out: &mut Vec<u8>, toks: &Vec<Vec<u8>>)
    ensures
        final(out)@ == old(out)@ + argjoin(toks.deep_view()),
{
    let ghost start = out@;
    let ghost deep = toks.deep_view();
    proof {
        lemma_deep_view_tokens(*toks);
        assert(argjoin(deep.take(0)) =~= Seq::<u8>::empty());
        assert(out@ =~= start + argjoin(deep.take(0)));
    }
    let mut i: usize = 0;
    while i < toks.len()
        invariant
            0 <= i <= toks@.len(),
            deep == toks.deep_view(),
            deep.len() == toks@.len(),
            forall|j: int| 0 <= j < toks@.len() ==> deep[j] == #[trigger] toks@[j]@,
            out@ == start + argjoin(deep.take(i as int)),
        decreases toks@.len() - i,
    {
        out.push(32);
        let tok = &toks[i];
        let mut k: usize = 0;
        let ghost mid = out@;
        while k < tok.len()
            invariant
                0 <= k <= tok@.len(),
                out@ == mid + tok@.take(k as int),
            decreases tok@.len() - k,
        {
            out.push(tok[k]);
            assert(tok@.take(k + 1) =~= tok@.take(k as int).push(tok@[k as int]));
            k = k + 1;
        }
        proof {
            assert(tok@.take(tok@.len() as int) =~= tok@);
            assert(deep.take(i + 1) =~= deep.take(i as int) + seq![deep[i as int]]);
            lemma_argjoin_concat(deep.take(i as int), seq![deep[i as int]]);
            assert(seq![deep[i as int]].skip(1) =~= Seq::<Seq<u8>>::empty());
            assert(argjoin(Seq::<Seq<u8>>::empty()) =~= Seq::<u8>::empty());
            assert(argjoin(seq![deep[i as int]]) =~= seq![32u8] + deep[i as int]);
            assert(out@ =~= start + argjoin(deep.take(i + 1)));
        }
        i = i + 1;
    }
    assert(deep.take(deep.len() as int) =~= deep);
}

/// Writes the canonical text of one operation (name and arguments) onto
/// `out`.
fn push_stmt_bytes(out: &mut Vec<u8>, op: &Operation)
    ensures
        final(out)@ == old(out)@ + stmt_bytes(*op),
{
    proof {
        lemma_op_kind_script(*op);
    }
    push_script_name(out, op_kind_exec(op));
    let toks = op_tokens(op);
    push_args(out, &toks);
    assert(out@ =~= old(out)@ + stmt_bytes(*op));
}

/// The operation identifier a typed operation belongs to.
fn op_kind_exec(op: &Operation) -> (r: OperationId)
    ensures
        r == op_kind(*op),
{
    match op {
        Operation::Blur(_) => OperationId::Blur,
        Operation::Brighten(_) => OperationId::Brighten,
        Operation::Contrast(_) => OperationId::Contrast,
        Operation::Crop(_, _, _, _) => OperationId::Crop,
        Operation::Filter3x3(_) => OperationId::Filter3x3,
        Operation::FlipHorizontal => OperationId::FlipHorizontal,
        Operation::FlipVertical => OperationId::FlipVertical,
        Operation::GrayScale => OperationId::Grayscale,
        Operation::HueRotate(_) => OperationId::HueRotate,
        Operation::Invert => OperationId::Invert,
        Operation::Resize(_, _) => OperationId::Resize,
        Operation::Rotate90 => OperationId::Rotate90,
        Operation::Rotate180 => OperationId::Rotate180,
        Operation::Rotate270 => OperationId::Rotate270,
        Operation::Unsharpen(_, _) => OperationId::Unsharpen,
    }
}

/// Every typed operation belongs to a script-spellable identifier.
pub proof fn lemma_op_kind_script(op: Operation)
    ensures
        is_script_op(op_kind(op)),
{
}

/// Renders a compiled program back to canonical script text: statements in
/// order, each closed by `;`, single spaces between tokens, no pipes.
pub fn serialize_operations(ops: &Vec<Operation>) -> (r: Vec<u8>)
    ensures
        r@ == script_bytes(ops@),
{
    let mut out: Vec<u8> = Vec::new();
    let ghost whole = ops@;
    let mut i: usize = 0;
    proof {
        assert(script_bytes(whole.take(0)) =~= Seq::<u8>::empty());
        assert(out@ =~= script_bytes(whole.take(0)));
    }
    while i < ops.len()
        invariant
            0 <= i <= ops@.len(),
            whole == ops@,
            out@ == script_bytes(whole.take(i as int)),
        decreases ops@.len() - i,
    {
        push_stmt_bytes(&mut out, &ops[i]);
        out.push(59);
        proof {
            assert(whole.take(i + 1) =~= whole.take(i as int) + seq![whole[i as int]]);
            lemma_script_bytes_concat(whole.take(i as int), seq![whole[i as int]]);
            assert(seq![whole[i as int]].skip(1) =~= Seq::<Operation>::empty());
            assert(script_bytes(Seq::<Operation>::empty()) =~= Seq::<u8>::empty());
            assert(script_bytes(seq![whole[i as int]]) =~= stmt_bytes(whole[i as int])
                + seq![59u8]);
            assert(out@ =~= script_bytes(whole.take(i + 1)));
        }
        i = i + 1;
    }
    assert(whole.take(whole.len() as int) =~= whole);
    out
}

pub proof fn lemma_script_bytes_concat(a: Seq<Operation>, b: Seq<Operation>)
    ensures
        script_bytes(a + b) == script_bytes(a) + script_bytes(b),
    decreases a.len(),
{
    if a.len() == 0 {
        assert(a + b =~= b);
        assert(script_bytes(a) + script_bytes(b) =~= script_bytes(b));
    } else {
        lemma_script_bytes_concat(a.skip(1), b);
        assert((a + b).skip(1) =~= a.skip(1) + b);
        assert(script_bytes(a + b) =~= script_bytes(a) + script_bytes(b));
    }
}


/// Compiles a whole script into the engine's instruction list: the syntax
/// layer reads the statements, coercion types them, and each typed operation
/// becomes one instruction, in statement order.
pub fn parse_script(script: &str) -> (r: Result<Vec<crate::engine::Instr>, SicParserError>)
    ensures
        match r {
            Ok(v) => {
                &&& sp_script(script.spec_bytes()) is Some
                &&& sp_coerce_all(sp_script(script.spec_bytes()).unwrap()) is Some
                &&& v@.len() == sp_coerce_all(
                    sp_script(script.spec_bytes()).unwrap(),
                ).unwrap().len()
                &&& forall|i: int|
                    0 <= i < v@.len() ==> v@[i] == crate::engine::spec_instruction_of(
                        #[trigger] sp_coerce_all(sp_script(script.spec_bytes()).unwrap()).unwrap()[i],
                    )
            },
            Err(_) => sp_script(script.spec_bytes()) is None || sp_coerce_all(
                sp_script(script.spec_bytes()).unwrap(),
            ) is None,
        },
{
    let stmts = match SICParser::parse(script) {
        Ok(stmts) => stmts,
        Err(e) => {
            return Err(e);
        },
    };
    let ops = match parse_image_operations(stmts) {
        Ok(ops) => ops,
        Err(message) => {
            return Err(SicParserError::ValueParsingError(message));
        },
    };
    Ok(crate::engine::instructions_of(&ops))
}

/// Whether every byte of a token is a legal token byte.
pub open spec fn all_token_bytes(t: Seq<u8>) -> bool {
    forall|i: int| 0 <= i < t.len() ==> is_token_byte(#[trigger] t[i])
}

/// The canonical token of a `u32` is a digit run worth that value.
pub proof fn lemma_u32_token_facts(n: u32)
    ensures
        crate::numeral::dec_digits(n as nat).len() > 0,
        all_token_bytes(crate::numeral::dec_digits(n as nat)),
        shape_uint(crate::numeral::dec_digits(n as nat)),
        spec_parse_u32(crate::numeral::dec_digits(n as nat)) == Some(n),
{
    let dd = crate::numeral::dec_digits(n as nat);
    crate::numeral::lemma_dec_digits(n as nat);
    assert forall|i: int| 0 <= i < dd.len() implies is_token_byte(#[trigger] dd[i]) by {
        assert(is_digit(dd[i]));
    }
}

/// The canonical token of an `i32` is a signed digit run worth that value.
pub proof fn lemma_i32_token_facts(v: i32)
    ensures
        i32_bytes(v).len() > 0,
        all_token_bytes(i32_bytes(v)),
        shape_int(i32_bytes(v)),
        spec_parse_i32(i32_bytes(v)) == Some(v),
{
    let t = i32_bytes(v);
    if v < 0 {
        let m = (-(v as int)) as nat;
        let dd = crate::numeral::dec_digits(m);
        crate::numeral::lemma_dec_digits(m);
        assert(t =~= seq![45u8] + dd);
        assert(t.skip(1) =~= dd);
        assert forall|i: int| 0 <= i < t.len() implies is_token_byte(#[trigger] t[i]) by {
            if i >= 1 {
                assert(is_digit(dd[i - 1]));
            }
        }
        assert(m <= 0x8000_0000);
        assert(spec_parse_i32(t) == Some(v));
    } else {
        let dd = crate::numeral::dec_digits(v as nat);
        crate::numeral::lemma_dec_digits(v as nat);
        assert(is_digit(dd[0]));
        assert forall|i: int| 0 <= i < t.len() implies is_token_byte(#[trigger] t[i]) by {
            assert(is_digit(dd[i]));
        }
        assert(spec_parse_i32(t) == Some(v));
    }
}

/// The canonical token of a normalized literal is a fractional token worth
/// that literal.
#[verifier::rlimit(100)]
pub proof fn lemma_fp_token_facts(x: FpLit)
    requires
        x.wf(),
    ensures
        crate::numeral::fp_bytes(x).len() > 0,
        all_token_bytes(crate::numeral::fp_bytes(x)),
        shape_fp(crate::numeral::fp_bytes(x)),
        spec_parse_fp(crate::numeral::fp_bytes(x)) == Some(x),
{
    crate::numeral::lemma_fp_roundtrip(x);
    let m = x.mantissa as nat;
    let scale = x.scale as nat;
    let ds = crate::numeral::dec_digits(m);
    crate::numeral::lemma_dec_digits(m);
    let mag = crate::numeral::fp_mag_bytes(m, scale);
    assert(all_token_bytes(mag)) by {
        if scale == 0 {
            assert forall|i: int| 0 <= i < mag.len() implies is_token_byte(#[trigger] mag[i]) by {
                assert(is_digit(ds[i]));
            }
        } else if scale < ds.len() {
            let cut = ds.len() - scale;
            assert forall|i: int| 0 <= i < mag.len() implies is_token_byte(#[trigger] mag[i]) by {
                if i < cut {
                    assert(mag[i] == ds[i]);
                    assert(is_digit(ds[i]));
                } else if i == cut {
                    assert(mag[i] == 46u8);
                } else {
                    assert(mag[i] == ds.skip(cut as int)[i - cut - 1]);
                }
            }
        } else {
            let pad = (scale - ds.len()) as nat;
            let zs = crate::numeral::zero_digits(pad);
            assert forall|i: int| 0 <= i < mag.len() implies is_token_byte(#[trigger] mag[i]) by {
                if i == 0 {
                    assert(mag[i] == 48u8);
                } else if i == 1 {
                    assert(mag[i] == 46u8);
                } else if i < 2 + pad {
                    assert(mag[i] == zs[i - 2]);
                    assert(zs[i - 2] == 48u8);
                } else {
                    assert(mag[i] == ds[i - 2 - pad]);
                    assert(is_digit(ds[i - 2 - pad]));
                }
            }
        }
    }
    let t = crate::numeral::fp_bytes(x);
    if x.neg {
        assert(t =~= seq![45u8] + mag);
        assert forall|i: int| 0 <= i < t.len() implies is_token_byte(#[trigger] t[i]) by {
            if i >= 1 {
                assert(t[i] == mag[i - 1]);
            }
        }
    } else {
        assert(t =~= mag);
    }
    assert(t.len() > 0);
}

/// The canonical argument text of well-shaped tokens reads back as exactly
/// those tokens, when followed by the end or by a byte no token contains.
pub proof fn lemma_args_roundtrip(ts: Seq<Seq<u8>>, kinds: Seq<ArgKind>, r: Seq<u8>)
    requires
        ts.len() == kinds.len(),
        forall|k: int| 0 <= k < ts.len() ==> (#[trigger] ts[k]).len() > 0,
        forall|k: int| 0 <= k < ts.len() ==> all_token_bytes(#[trigger] ts[k]),
        forall|k: int| 0 <= k < ts.len() ==> shape_ok(kinds[k], #[trigger] ts[k]),
        r.len() == 0 || !is_token_byte(r[0]),
    ensures
        sp_args(argjoin(ts) + r, kinds) == Some((ts, argjoin(ts).len() as int)),
    decreases ts.len(),
{
    let s = argjoin(ts) + r;
    if ts.len() == 0 {
        assert(ts =~= Seq::<Seq<u8>>::empty());
        assert(argjoin(ts).len() == 0);
    } else {
        let t0 = ts[0];
        let rest = ts.skip(1);
        let tail = argjoin(rest) + r;
        assert(argjoin(ts) =~= seq![32u8] + t0 + argjoin(rest));
        assert(s =~= seq![32u8] + (t0 + tail));
        assert(s[0] == 32);
        assert(s.skip(1) =~= t0 + tail);
        assert(tail.len() == 0 || !is_token_byte(tail[0])) by {
            if rest.len() > 0 {
                assert(argjoin(rest)[0] == 32);
                assert(tail[0] == 32);
            } else {
                assert(argjoin(rest) =~= Seq::<u8>::empty());
                assert(tail =~= r);
            }
        }
        lemma_token_len_concat(t0, tail);
        let n = token_len(s.skip(1));
        assert(n == t0.len());
        assert(s.skip(1).take(n) =~= t0);
        assert(shape_ok(kinds[0], t0));
        assert(s.skip(1 + n) =~= tail);
        lemma_args_roundtrip(rest, kinds.skip(1), r);
        assert(sp_args(tail, kinds.skip(1)) == Some((rest, argjoin(rest).len() as int)));
        assert(seq![t0] + rest =~= ts);
        assert(argjoin(ts).len() == 1 + n + argjoin(rest).len());
    }
}

/// A run of `n` space separators: the pipe pattern of a canonical filter
/// statement.
pub open spec fn falses(n: nat) -> Seq<bool>
    decreases n,
{
    if n == 0 {
        Seq::empty()
    } else {
        seq![false] + falses((n - 1) as nat)
    }
}

pub proof fn lemma_falses(n: nat)
    ensures
        falses(n).len() == n,
        forall|i: int| 0 <= i < n ==> falses(n)[i] == false,
    decreases n,
{
    if n > 0 {
        lemma_falses((n - 1) as nat);
    }
}

/// The canonical (separator, token) pairs of a filter statement read back as
/// the tokens with plain space separators throughout.
pub proof fn lemma_f3_pairs_roundtrip(ts: Seq<Seq<u8>>, r: Seq<u8>)
    requires
        forall|k: int| 0 <= k < ts.len() ==> (#[trigger] ts[k]).len() > 0,
        forall|k: int| 0 <= k < ts.len() ==> all_token_bytes(#[trigger] ts[k]),
        forall|k: int| 0 <= k < ts.len() ==> shape_fp(#[trigger] ts[k]),
        r.len() == 0 || !is_token_byte(r[0]),
    ensures
        sp_f3_pairs(argjoin(ts) + r, ts.len()) == Some(
            (ts, falses(ts.len()), argjoin(ts).len() as int),
        ),
    decreases ts.len(),
{
    let s = argjoin(ts) + r;
    if ts.len() == 0 {
        assert(ts =~= Seq::<Seq<u8>>::empty());
        assert(falses(0) =~= Seq::<bool>::empty());
    } else {
        let t0 = ts[0];
        let rest = ts.skip(1);
        let tail = argjoin(rest) + r;
        assert(argjoin(ts) =~= seq![32u8] + t0 + argjoin(rest));
        assert(s =~= seq![32u8] + (t0 + tail));
        assert(s[0] == 32);
        assert(s[1] == t0[0]);
        assert(is_token_byte(t0[0]));
        assert(s[1] != 124);
        assert(sp_sep(s) == Some((false, 1int)));
        assert(s.skip(1) =~= t0 + tail);
        assert(tail.len() == 0 || !is_token_byte(tail[0])) by {
            if rest.len() > 0 {
                assert(argjoin(rest)[0] == 32);
                assert(tail[0] == 32);
            } else {
                assert(argjoin(rest) =~= Seq::<u8>::empty());
                assert(tail =~= r);
            }
        }
        lemma_token_len_concat(t0, tail);
        let n = token_len(s.skip(1));
        assert(n == t0.len());
        assert(s.skip(1).take(n) =~= t0);
        assert(sp_fp_tok(s.skip(1)) == Some((t0, n)));
        assert(s.skip(1 + n) =~= tail);
        lemma_f3_pairs_roundtrip(rest, r);
        assert(seq![t0] + rest =~= ts);
        assert(seq![false] + falses(rest.len()) =~= falses(ts.len()));
        assert(argjoin(ts).len() == 1 + n + argjoin(rest).len());
    }
}

/// A script-spellable name is a nonempty identifier run.
pub proof fn lemma_script_name_facts(op: OperationId)
    requires
        is_script_op(op),
    ensures
        script_name(op).len() > 0,
        forall|i: int| 0 <= i < script_name(op).len() ==> is_ident_byte(
            #[trigger] script_name(op)[i],
        ),
{
}

/// Looking a canonical name up yields the operation it spells.
pub proof fn lemma_script_op_inverse(op: OperationId)
    requires
        is_script_op(op),
    ensures
        spec_script_op(script_name(op)) == Some(op),
{
}

/// The canonical tokens of a typed operation fit its declared argument
/// pattern.
#[verifier::rlimit(100)]
pub proof fn lemma_tokens_of_facts(op: Operation)
    requires
        op_wf(op),
    ensures
        tokens_of(op).len() == (if op_kind(op) == OperationId::Filter3x3 {
            9int
        } else {
            arg_kinds(op_kind(op)).len() as int
        }),
        forall|k: int| 0 <= k < tokens_of(op).len() ==> (#[trigger] tokens_of(op)[k]).len() > 0,
        forall|k: int| 0 <= k < tokens_of(op).len() ==> all_token_bytes(#[trigger] tokens_of(op)[k]),
        op_kind(op) != OperationId::Filter3x3 ==> forall|k: int|
            0 <= k < tokens_of(op).len() ==> shape_ok(
                arg_kinds(op_kind(op))[k],
                #[trigger] tokens_of(op)[k],
            ),
        op_kind(op) == OperationId::Filter3x3 ==> forall|k: int|
            0 <= k < tokens_of(op).len() ==> shape_fp(#[trigger] tokens_of(op)[k]),
{
    match op {
        Operation::Blur(x) => {
            lemma_fp_token_facts(x);
        },
        Operation::Brighten(v) => {
            lemma_i32_token_facts(v);
        },
        Operation::Contrast(x) => {
            lemma_fp_token_facts(x);
        },
        Operation::Crop(a, b, c, d) => {
            lemma_u32_token_facts(a);
            lemma_u32_token_facts(b);
            lemma_u32_token_facts(c);
            lemma_u32_token_facts(d);
        },
        Operation::Filter3x3(k) => {
            lemma_fp_token_facts(k.e0);
            lemma_fp_token_facts(k.e1);
            lemma_fp_token_facts(k.e2);
            lemma_fp_token_facts(k.e3);
            lemma_fp_token_facts(k.e4);
            lemma_fp_token_facts(k.e5);
            lemma_fp_token_facts(k.e6);
            lemma_fp_token_facts(k.e7);
            lemma_fp_token_facts(k.e8);
        },
        Operation::HueRotate(v) => {
            lemma_i32_token_facts(v);
        },
        Operation::Resize(a, b) => {
            lemma_u32_token_facts(a);
            lemma_u32_token_facts(b);
        },
        Operation::Unsharpen(x, v) => {
            lemma_fp_token_facts(x);
            lemma_i32_token_facts(v);
        },
        _ => {},
    }
}

/// The canonical text of one statement reads back as exactly its raw
/// statement, when followed by the end or by a statement separator.
#[verifier::rlimit(100)]
pub proof fn lemma_stmt_roundtrip(op: Operation, r: Seq<u8>)
    requires
        op_wf(op),
        r.len() == 0 || r[0] == 59,
    ensures
        sp_statement(stmt_bytes(op) + r) == Some((raw_of(op), stmt_bytes(op).len() as int)),
{
    let kind = op_kind(op);
    let name = script_name(kind);
    let toks = tokens_of(op);
    let args = argjoin(toks);
    let s = stmt_bytes(op) + r;
    lemma_op_kind_script(op);
    lemma_script_name_facts(kind);
    lemma_script_op_inverse(kind);
    lemma_tokens_of_facts(op);
    assert(s =~= name + (args + r));
    assert((args + r).len() == 0 || !is_ident_byte((args + r)[0])) by {
        if toks.len() > 0 {
            assert(args[0] == 32);
            assert((args + r)[0] == 32);
        } else {
            assert(args =~= Seq::<u8>::empty());
            assert(args + r =~= r);
            if r.len() > 0 {
                assert(r[0] == 59);
            }
        }
    }
    lemma_ident_len_concat(name, args + r);
    let n = ident_len(s);
    assert(n == name.len());
    assert(s.take(n) =~= name);
    assert(s.skip(n) =~= args + r);
    assert(r.len() == 0 || !is_token_byte(r[0]));
    if kind == OperationId::Filter3x3 {
        let t0 = toks[0];
        let rest = toks.skip(1);
        let tail = argjoin(rest) + r;
        assert(args =~= seq![32u8] + t0 + argjoin(rest));
        assert(args + r =~= seq![32u8] + (t0 + tail));
        assert((args + r)[0] == 32);
        assert((args + r).skip(1) =~= t0 + tail);
        assert(tail.len() == 0 || !is_token_byte(tail[0])) by {
            if rest.len() > 0 {
                assert(argjoin(rest)[0] == 32);
                assert(tail[0] == 32);
            } else {
                assert(argjoin(rest) =~= Seq::<u8>::empty());
                assert(tail =~= r);
            }
        }
        lemma_token_len_concat(t0, tail);
        let c1 = token_len((args + r).skip(1));
        assert(c1 == t0.len());
        assert((args + r).skip(1).take(c1) =~= t0);
        assert(sp_fp_tok((args + r).skip(1)) == Some((t0, c1)));
        assert((args + r).skip(1 + c1) =~= tail);
        lemma_f3_pairs_roundtrip(rest, r);
        lemma_falses(rest.len());
        assert(rest.len() == 8);
        assert(pipes_ok(falses(8)));
        assert(seq![t0] + rest =~= toks);
        assert(args.len() == 1 + c1 + argjoin(rest).len());
        assert(sp_f3_args(args + r) == Some((toks, args.len() as int)));
    } else {
        lemma_args_roundtrip(toks, arg_kinds(kind), r);
    }
    assert(stmt_bytes(op).len() == name.len() + args.len());
}

/// The typed reading of a canonical raw statement is the operation it was
/// rendered from.
#[verifier::rlimit(100)]
pub proof fn lemma_coerce_stmt_roundtrip(op: Operation)
    requires
        op_wf(op),
    ensures
        sp_coerce_stmt(raw_of(op)) == Some(op),
{
    lemma_tokens_of_facts(op);
    match op {
        Operation::Blur(x) => {
            lemma_fp_token_facts(x);
        },
        Operation::Brighten(v) => {
            lemma_i32_token_facts(v);
        },
        Operation::Contrast(x) => {
            lemma_fp_token_facts(x);
        },
        Operation::Crop(a, b, c, d) => {
            lemma_u32_token_facts(a);
            lemma_u32_token_facts(b);
            lemma_u32_token_facts(c);
            lemma_u32_token_facts(d);
        },
        Operation::Filter3x3(k) => {
            lemma_fp_token_facts(k.e0);
            lemma_fp_token_facts(k.e1);
            lemma_fp_token_facts(k.e2);
            lemma_fp_token_facts(k.e3);
            lemma_fp_token_facts(k.e4);
            lemma_fp_token_facts(k.e5);
            lemma_fp_token_facts(k.e6);
            lemma_fp_token_facts(k.e7);
            lemma_fp_token_facts(k.e8);
        },
        Operation::HueRotate(v) => {
            lemma_i32_token_facts(v);
        },
        Operation::Resize(a, b) => {
            lemma_u32_token_facts(a);
            lemma_u32_token_facts(b);
        },
        Operation::Unsharpen(x, v) => {
            lemma_fp_token_facts(x);
            lemma_i32_token_facts(v);
        },
        _ => {},
    }
}

/// The canonical text of a nonempty program reads back as exactly its raw
/// statements.
pub proof fn lemma_stmts_roundtrip(l: Seq<Operation>)
    requires
        l.len() >= 1,
        forall|i: int| 0 <= i < l.len() ==> op_wf(#[trigger] l[i]),
    ensures
        sp_stmts(script_bytes(l)) == Some(raws_of(l)),
    decreases l.len(),
{
    let op = l[0];
    let rest = l.skip(1);
    let r0 = seq![59u8] + script_bytes(rest);
    let s = script_bytes(l);
    assert(s =~= stmt_bytes(op) + r0);
    assert(r0[0] == 59);
    lemma_stmt_roundtrip(op, r0);
    let c = stmt_bytes(op).len() as int;
    assert(sp_statement(s) == Some((raw_of(op), c)));
    assert(s.skip(c) =~= r0);
    assert(!is_ws(r0[0]));
    assert(ws_len(r0) == 0);
    assert(r0.skip(1) =~= script_bytes(rest));
    if rest.len() == 0 {
        assert(script_bytes(rest) =~= Seq::<u8>::empty());
        assert(ws_len(script_bytes(rest)) == 0);
        assert(sp_stmts(s) == Some(seq![raw_of(op)]));
        assert(raws_of(l) =~= seq![raw_of(op)] + raws_of(rest));
        assert(raws_of(rest) =~= Seq::<RawStmtV>::empty());
        assert(seq![raw_of(op)] + raws_of(rest) =~= seq![raw_of(op)]);
    } else {
        let kind2 = op_kind(rest[0]);
        lemma_op_kind_script(rest[0]);
        lemma_script_name_facts(kind2);
        assert(script_bytes(rest) =~= stmt_bytes(rest[0]) + seq![59u8] + script_bytes(
            rest.skip(1),
        ));
        assert(script_bytes(rest)[0] == script_name(kind2)[0]) by {
            assert(stmt_bytes(rest[0]) =~= script_name(kind2) + argjoin(tokens_of(rest[0])));
        }
        assert(is_ident_byte(script_bytes(rest)[0]));
        assert(!is_ws(script_bytes(rest)[0]));
        assert(ws_len(script_bytes(rest)) == 0);
        assert(script_bytes(rest).len() > 0);
        lemma_stmts_roundtrip(rest);
        assert(script_bytes(rest).skip(0) =~= script_bytes(rest));
        assert(sp_stmts(s) == Some(seq![raw_of(op)] + raws_of(rest)));
        assert(raws_of(l) =~= seq![raw_of(op)] + raws_of(rest));
    }
}

/// The typed reading of the canonical raw statements is the program they were
/// rendered from.
pub proof fn lemma_coerce_all_roundtrip(l: Seq<Operation>)
    requires
        forall|i: int| 0 <= i < l.len() ==> op_wf(#[trigger] l[i]),
    ensures
        sp_coerce_all(raws_of(l)) == Some(l),
    decreases l.len(),
{
    if l.len() == 0 {
        assert(raws_of(l) =~= Seq::<RawStmtV>::empty());
        assert(sp_coerce_all(raws_of(l)) == Some(Seq::<Operation>::empty()));
        assert(Seq::<Operation>::empty() =~= l);
    } else {
        lemma_coerce_stmt_roundtrip(l[0]);
        lemma_coerce_all_roundtrip(l.skip(1));
        assert(raws_of(l)[0] == raw_of(l[0]));
        assert(raws_of(l).skip(1) =~= raws_of(l.skip(1)));
        assert(seq![l[0]] + l.skip(1) =~= l);
    }
}

/// Every operation compilation produces is normalized.
pub proof fn lemma_coerce_stmt_wf(st: RawStmtV)
    ensures
        sp_coerce_stmt(st) is Some ==> op_wf(sp_coerce_stmt(st).unwrap()),
{
    let ts = st.1;
    if ts.len() >= 1 {
        crate::numeral::lemma_spec_parse_fp_wf(ts[0]);
    }
    if ts.len() >= 2 {
        crate::numeral::lemma_spec_parse_fp_wf(ts[1]);
    }
    if ts.len() == 9 {
        crate::numeral::lemma_spec_parse_fp_wf(ts[2]);
        crate::numeral::lemma_spec_parse_fp_wf(ts[3]);
        crate::numeral::lemma_spec_parse_fp_wf(ts[4]);
        crate::numeral::lemma_spec_parse_fp_wf(ts[5]);
        crate::numeral::lemma_spec_parse_fp_wf(ts[6]);
        crate::numeral::lemma_spec_parse_fp_wf(ts[7]);
        crate::numeral::lemma_spec_parse_fp_wf(ts[8]);
    }
}

pub proof fn lemma_coerce_all_wf(sts: Seq<RawStmtV>)
    ensures
        match sp_coerce_all(sts) {
            Some(l) => forall|i: int| 0 <= i < l.len() ==> op_wf(#[trigger] l[i]),
            None => true,
        },
    decreases sts.len(),
{
    if sts.len() > 0 {
        lemma_coerce_stmt_wf(sts[0]);
        lemma_coerce_all_wf(sts.skip(1));
        match sp_coerce_stmt(sts[0]) {
            None => {},
            Some(op) => {
                match sp_coerce_all(sts.skip(1)) {
                    None => {},
                    Some(r) => {
                        let l = seq![op] + r;
                        assert forall|i: int| 0 <= i < l.len() implies op_wf(#[trigger] l[i]) by {
                            if i >= 1 {
                                assert(l[i] == r[i - 1]);
                            }
                        }
                    },
                }
            },
        }
    }
}

/// Round-trip stability of the compiled form: a program obtained by
/// compiling any valid script, rendered back to canonical script text and
/// compiled again, yields the same program.
#[verifier::rlimit(100)]
pub proof fn lemma_compile_roundtrip(s: Seq<u8>, raw: Seq<RawStmtV>, l: Seq<Operation>)
    requires
        sp_script(s) == Some(raw),
        sp_coerce_all(raw) == Some(l),
    ensures
        sp_script(script_bytes(l)) == Some(raws_of(l)),
        sp_coerce_all(raws_of(l)) == Some(l),
{
    lemma_coerce_all_wf(raw);
    assert(sp_coerce_all(raw).unwrap() == l);
    assert(forall|i: int| 0 <= i < l.len() ==> op_wf(#[trigger] l[i]));
    if l.len() == 0 {
        assert(script_bytes(l) =~= Seq::<u8>::empty());
        assert(ws_len(script_bytes(l)) == 0);
        assert(sp_script(script_bytes(l)) == Some(Seq::<RawStmtV>::empty()));
        assert(raws_of(l) =~= Seq::<RawStmtV>::empty());
        lemma_coerce_all_roundtrip(l);
    } else {
        lemma_stmts_roundtrip(l);
        let kind = op_kind(l[0]);
        lemma_op_kind_script(l[0]);
        lemma_script_name_facts(kind);
        assert(script_bytes(l) =~= stmt_bytes(l[0]) + seq![59u8] + script_bytes(l.skip(1)));
        assert(script_bytes(l)[0] == script_name(kind)[0]) by {
            assert(stmt_bytes(l[0]) =~= script_name(kind) + argjoin(tokens_of(l[0])));
        }
        assert(is_ident_byte(script_bytes(l)[0]));
        assert(!is_ws(script_bytes(l)[0]));
        assert(ws_len(script_bytes(l)) == 0);
        assert(script_bytes(l).skip(0) =~= script_bytes(l));
        lemma_coerce_all_roundtrip(l);
    }
}

} // verus!
