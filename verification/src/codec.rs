use vstd::prelude::*;
use vstd::string::StringExecFns;

use crate::ids::{
    id_to_string, spec_all_digits, spec_char_is_digit, spec_dec_digits, spec_digits_value,
};
use crate::strutil::push_char;
use crate::types::JobMessage;

verus! {

// The JSON wire format of the work messages, written and read by this
// crate itself: objects with a fixed field order, ids as decimal
// numbers, and strings escaping only `"` and `\`.

/// How one character is written inside a JSON string.
pub open spec fn spec_escape_char(c: char) -> Seq<char> {
    if c == '"' || c == '\\' {
        seq!['\\', c]
    } else {
        seq![c]
    }
}

/// How a whole string body is written inside its quotes.
pub open spec fn spec_escape(s: Seq<char>) -> Seq<char>
    decreases s.len(),
{
    if s.len() == 0 {
        Seq::empty()
    } else {
        spec_escape_char(s[0]) + spec_escape(s.drop_first())
    }
}

/// The canonical text of a work message.
pub open spec fn spec_job_message_text(
    job_id: u128,
    registry: Seq<char>,
    package_name: Seq<char>,
) -> Seq<char> {
    "{\"job_id\":"@ + spec_dec_digits(job_id as nat) + ",\"registry\":\""@ + spec_escape(registry)
        + "\""@ + ",\"package_name\":\""@ + spec_escape(package_name) + "\""@ + "}"@
}

/// Where a fixed piece of text sits at position `i`, the position just
/// after it; `None` where the input differs from the piece.
pub open spec fn spec_expect(s: Seq<char>, i: int, lit: Seq<char>) -> Option<int> {
    if 0 <= i && i + lit.len() <= s.len() && s.subrange(i, i + lit.len()) == lit {
        Some(i + lit.len())
    } else {
        None
    }
}

/// The end of the digit run starting at `i`.
pub open spec fn spec_digit_run_end(s: Seq<char>, i: int) -> int
    decreases s.len() - i,
{
    if 0 <= i < s.len() && spec_char_is_digit(s[i]) {
        spec_digit_run_end(s, i + 1)
    } else {
        i
    }
}

/// What scanning a number at `i` yields: the value of the digit run and
/// the position after it; `None` where no digit stands at `i` or the
/// value does not fit an id.
pub open spec fn spec_scan_number(s: Seq<char>, i: int) -> Option<(u128, int)> {
    let j = spec_digit_run_end(s, i);
    if j > i && spec_digits_value(s.subrange(i, j)) <= u128::MAX {
        Some((spec_digits_value(s.subrange(i, j)) as u128, j))
    } else {
        None
    }
}

/// What scanning a string body at `i` (just after the opening quote)
/// yields: the decoded body and the position after the closing quote;
/// `None` on a dangling escape or a missing closing quote.
pub open spec fn spec_scan_string(s: Seq<char>, i: int) -> Option<(Seq<char>, int)>
    decreases s.len() - i,
{
    if i < 0 || i >= s.len() {
        None
    } else if s[i] == '"' {
        Some((Seq::empty(), i + 1))
    } else if s[i] == '\\' {
        if i + 1 < s.len() && (s[i + 1] == '"' || s[i + 1] == '\\') {
            match spec_scan_string(s, i + 2) {
                Some((w, j)) => Some((seq![s[i + 1]] + w, j)),
                None => None,
            }
        } else {
            None
        }
    } else {
        match spec_scan_string(s, i + 1) {
            Some((w, j)) => Some((seq![s[i]] + w, j)),
            None => None,
        }
    }
}

/// What parsing a whole work message yields: its fields, where the text
/// is one well-formed message and nothing else; `None` otherwise.
pub open spec fn spec_parse_job_message(s: Seq<char>) -> Option<(u128, Seq<char>, Seq<char>)> {
    match spec_expect(s, 0, "{\"job_id\":"@) {
        None => None,
        Some(i1) => match spec_scan_number(s, i1) {
            None => None,
            Some((job_id, i2)) => match spec_expect(s, i2, ",\"registry\":\""@) {
                None => None,
                Some(i3) => match spec_scan_string(s, i3) {
                    None => None,
                    Some((registry, i4)) => match spec_expect(s, i4, ",\"package_name\":\""@) {
                        None => None,
                        Some(i5) => match spec_scan_string(s, i5) {
                            None => None,
                            Some((package_name, i6)) => if spec_expect(s, i6, "}"@) == Some(
                                s.len() as int,
                            ) {
                                Some((job_id, registry, package_name))
                            } else {
                                None
                            },
                        },
                    },
                },
            },
        },
    }
}

/// Appending one more source character extends the escaped text by that
/// character's written form.
proof fn lemma_escape_snoc(s: Seq<char>, i: int)
    requires
        0 <= i < s.len(),
    ensures
        spec_escape(s.take(i + 1)) == spec_escape(s.take(i)) + spec_escape_char(s[i]),
    decreases i,
{
    if i == 0 {
        assert(s.take(1).drop_first() =~= Seq::<char>::empty());
        assert(s.take(0) =~= Seq::<char>::empty());
        assert(s.take(1)[0] == s[0]);
        assert(spec_escape(s.take(1)) == spec_escape_char(s[0]) + spec_escape(
            s.take(1).drop_first(),
        ));
        assert(spec_escape_char(s[0]) + Seq::<char>::empty() =~= spec_escape_char(s[0]));
        assert(Seq::<char>::empty() + spec_escape_char(s[0]) =~= spec_escape_char(s[0]));
    } else {
        lemma_escape_snoc(s.drop_first(), i - 1);
        assert(s.take(i + 1).drop_first() =~= s.drop_first().take(i));
        assert(s.take(i).drop_first() =~= s.drop_first().take(i - 1));
        assert(s.take(i + 1)[0] == s[0]);
        assert(s.take(i)[0] == s[0]);
        assert(s.drop_first()[i - 1] == s[i]);
        assert(spec_escape(s.take(i + 1)) == spec_escape_char(s[0]) + spec_escape(
            s.drop_first().take(i),
        ));
        assert(spec_escape(s.take(i)) == spec_escape_char(s[0]) + spec_escape(
            s.drop_first().take(i - 1),
        ));
        assert(spec_escape_char(s[0]) + (spec_escape(s.drop_first().take(i - 1))
            + spec_escape_char(s[i])) =~= (spec_escape_char(s[0]) + spec_escape(
            s.drop_first().take(i - 1),
        )) + spec_escape_char(s[i]));
    }
}

/// Writes the escaped body of a string onto `out`.
fn append_escaped(out: &mut String, s: &str)
    ensures
        final(out)@ == old(out)@ + spec_escape(s@),
{
    let len = s.unicode_len();
    let mut i: usize = 0;
    while i < len
        invariant
            0 <= i <= len,
            len == s@.len(),
            out@ == old(out)@ + spec_escape(s@.take(i as int)),
        decreases len - i,
    {
        let c = s.get_char(i);
        proof {
            lemma_escape_snoc(s@, i as int);
        }
        if c == '"' || c == '\\' {
            push_char(out, '\\');
            push_char(out, c);
            proof {
                assert(out@ =~= old(out)@ + spec_escape(s@.take(i as int + 1)));
            }
        } else {
            push_char(out, c);
            proof {
                assert(out@ =~= old(out)@ + spec_escape(s@.take(i as int + 1)));
            }
        }
        i = i + 1;
    }
    proof {
        assert(s@.take(len as int) =~= s@);
    }
}

/// Renders a work message as its canonical text.
pub fn encode_job_message(m: &JobMessage) -> (r: String)
    ensures
        r@ == spec_job_message_text(m.job_id, m.registry@, m.package_name@),
{
    let mut out = String::from_str("{\"job_id\":");
    let id_text = id_to_string(m.job_id);
    out.append(id_text.as_str());
    out.append(",\"registry\":\"");
    append_escaped(&mut out, m.registry.as_str());
    out.append("\"");
    out.append(",\"package_name\":\"");
    append_escaped(&mut out, m.package_name.as_str());
    out.append("\"");
    out.append("}");
    proof {
        assert(out@ =~= spec_job_message_text(m.job_id, m.registry@, m.package_name@));
    }
    out
}

/// Checks that the fixed text `lit` sits at position `i`.
pub(crate) fn expect_lit(s: &str, i: usize, lit: &str) -> (r: Option<usize>)
    requires
        i <= s@.len(),
    ensures
        match r {
            Some(j) => spec_expect(s@, i as int, lit@) == Some(j as int),
            None => spec_expect(s@, i as int, lit@) is None,
        },
{
    let n = s.unicode_len();
    let l = lit.unicode_len();
    if l > n - i {
        return None;
    }
    let mut k: usize = 0;
    while k < l
        invariant
            0 <= k <= l,
            l == lit@.len(),
            n == s@.len(),
            i + l <= n,
            forall|t: int| 0 <= t < k ==> s@[i + t] == lit@[t],
        decreases l - k,
    {
        if s.get_char(i + k) != lit.get_char(k) {
            proof {
                let sub = s@.subrange(i as int, i as int + lit@.len());
                assert(sub[k as int] == s@[i + k]);
                assert(sub != lit@);
            }
            return None;
        }
        k = k + 1;
    }
    proof {
        assert(s@.subrange(i as int, i as int + lit@.len()) =~= lit@);
    }
    Some(i + l)
}

/// The digit run starting at `i` lies within the text, consists of
/// digits, and ends at the end of the text or just before a non-digit.
proof fn lemma_run_end_bounds(s: Seq<char>, i: int)
    requires
        0 <= i <= s.len(),
    ensures
        i <= spec_digit_run_end(s, i) <= s.len(),
        forall|k: int|
            i <= k < spec_digit_run_end(s, i) ==> spec_char_is_digit(#[trigger] s[k]),
        spec_digit_run_end(s, i) == s.len() || !spec_char_is_digit(s[spec_digit_run_end(s, i)]),
    decreases s.len() - i,
{
    if i < s.len() && spec_char_is_digit(s[i]) {
        lemma_run_end_bounds(s, i + 1);
    }
}

fn char_is_digit_at(s: &str, j: usize) -> (b: bool)
    requires
        j < s@.len(),
    ensures
        b == spec_char_is_digit(s@[j as int]),
{
    let v = s.get_char(j) as u32;
    48 <= v && v <= 57
}

/// Scans the number at position `i`, if one stands there and fits an id.
pub(crate) fn scan_number(s: &str, i: usize) -> (r: Option<(u128, usize)>)
    requires
        i <= s@.len(),
    ensures
        match r {
            Some((v, j)) => spec_scan_number(s@, i as int) == Some((v, j as int)) && i < j
                <= s@.len(),
            None => spec_scan_number(s@, i as int) is None,
        },
{
    let n = s.unicode_len();
    let mut acc: u128 = 0;
    let mut j: usize = i;
    proof {
        lemma_run_end_bounds(s@, i as int);
    }
    while j < n && char_is_digit_at(s, j)
        invariant
            i <= j <= n,
            n == s@.len(),
            forall|k: int| i <= k < j ==> spec_char_is_digit(#[trigger] s@[k]),
            spec_digit_run_end(s@, i as int) == spec_digit_run_end(s@, j as int),
            acc == spec_digits_value(s@.subrange(i as int, j as int)),
        decreases n - j,
    {
        let c = s.get_char(j);
        let v = c as u32;
        let d = (v - 48) as u128;
        proof {
            let t = s@.subrange(i as int, j as int + 1);
            assert(t.drop_last() =~= s@.subrange(i as int, j as int));
            assert(t.last() == s@[j as int]);
        }
        let next = match acc.checked_mul(10) {
            Some(m) => m.checked_add(d),
            None => None,
        };
        match next {
            Some(m) => {
                acc = m;
            },
            None => {
                proof {
                    lemma_run_end_bounds(s@, i as int);
                    let e = spec_digit_run_end(s@, i as int);
                    assert(spec_digit_run_end(s@, j as int) == spec_digit_run_end(
                        s@,
                        j as int + 1,
                    ));
                    let t = s@.subrange(i as int, e);
                    assert(spec_all_digits(t));
                    assert(t.take(j as int + 1 - i) =~= s@.subrange(i as int, j as int + 1));
                    crate::ids::lemma_digits_value_mono(t, j as int + 1 - i);
                    assert(spec_digits_value(s@.subrange(i as int, e)) > u128::MAX);
                }
                return None;
            },
        }
        j = j + 1;
    }
    proof {
        assert(spec_digit_run_end(s@, j as int) == j as int);
        assert(spec_digit_run_end(s@, i as int) == j as int);
    }
    if j == i {
        return None;
    }
    Some((acc, j))
}

/// Scans the string body at position `i`, just after its opening quote.
pub(crate) fn scan_string(s: &str, i: usize) -> (r: Option<(String, usize)>)
    requires
        i <= s@.len(),
    ensures
        match r {
            Some((v, j)) => (spec_scan_string(s@, i as int) matches Some(p) && p.0 == v@ && p.1
                == j as int) && i < j <= s@.len(),
            None => spec_scan_string(s@, i as int) is None,
        },
{
    let n = s.unicode_len();
    let mut out = String::new();
    let mut pos: usize = i;
    proof {
        match spec_scan_string(s@, i as int) {
            Some((w, j)) => {
                assert(Seq::<char>::empty() + w =~= w);
            },
            None => {},
        }
    }
    while pos < n
        invariant
            i <= pos <= n,
            n == s@.len(),
            spec_scan_string(s@, i as int) == match spec_scan_string(s@, pos as int) {
                Some((w, j)) => Some((out@ + w, j)),
                None => None,
            },
        decreases n - pos,
    {
        let c = s.get_char(pos);
        if c == '"' {
            proof {
                assert(spec_scan_string(s@, pos as int) == Some(
                    (Seq::<char>::empty(), pos as int + 1),
                ));
                assert(out@ + Seq::<char>::empty() =~= out@);
            }
            return Some((out, pos + 1));
        } else if c == '\\' {
            if pos + 1 < n {
                let e = s.get_char(pos + 1);
                if e == '"' || e == '\\' {
                    let ghost out_old = out@;
                    push_char(&mut out, e);
                    proof {
                        match spec_scan_string(s@, pos as int + 2) {
                            Some((w2, j2)) => {
                                assert(spec_scan_string(s@, pos as int) == Some(
                                    (seq![s@[pos as int + 1]] + w2, j2),
                                ));
                                assert(out_old + (seq![e] + w2) =~= out@ + w2);
                            },
                            None => {
                                assert(spec_scan_string(s@, pos as int) is None);
                            },
                        }
                    }
                    pos = pos + 2;
                } else {
                    proof {
                        assert(spec_scan_string(s@, pos as int) is None);
                    }
                    return None;
                }
            } else {
                proof {
                    assert(spec_scan_string(s@, pos as int) is None);
                }
                return None;
            }
        } else {
            let ghost out_old = out@;
            push_char(&mut out, c);
            proof {
                match spec_scan_string(s@, pos as int + 1) {
                    Some((w2, j2)) => {
                        assert(spec_scan_string(s@, pos as int) == Some(
                            (seq![s@[pos as int]] + w2, j2),
                        ));
                        assert(out_old + (seq![c] + w2) =~= out@ + w2);
                    },
                    None => {
                        assert(spec_scan_string(s@, pos as int) is None);
                    },
                }
            }
            pos = pos + 1;
        }
    }
    proof {
        assert(spec_scan_string(s@, pos as int) is None);
    }
    None
}

/// A run of digits bounded by a non-digit (or the end of the text) is
/// exactly what the scanner consumes.
proof fn lemma_run_end_exact(s: Seq<char>, i: int, j: int)
    requires
        0 <= i <= j <= s.len(),
        forall|k: int| i <= k < j ==> spec_char_is_digit(#[trigger] s[k]),
        j == s.len() || !spec_char_is_digit(s[j]),
    ensures
        spec_digit_run_end(s, i) == j,
    decreases j - i,
{
    if i < j {
        lemma_run_end_exact(s, i + 1, j);
    }
}

/// The scanner reads an escaped string body followed by its closing
/// quote back to exactly the body it encodes.
proof fn lemma_scan_escaped(s: Seq<char>, i: int, w: Seq<char>)
    requires
        0 <= i,
        i + spec_escape(w).len() < s.len(),
        s.subrange(i, i + spec_escape(w).len()) == spec_escape(w),
        s[i + spec_escape(w).len()] == '"',
    ensures
        spec_scan_string(s, i) == Some((w, i + spec_escape(w).len() + 1)),
    decreases w.len(),
{
    if w.len() == 0 {
        assert(s[i] == '"');
    } else {
        let c = w[0];
        let w2 = w.drop_first();
        let e = spec_escape(w);
        let e2 = spec_escape(w2);
        assert(e == spec_escape_char(c) + e2);
        if c == '"' || c == '\\' {
            assert(e[0] == '\\');
            assert(e[1] == c);
            assert(s[i] == e[0]);
            assert(s[i + 1] == e[1]);
            assert forall|k: int| 0 <= k < e2.len() implies s.subrange(
                i + 2,
                i + 2 + e2.len(),
            )[k] == e2[k] by {
                assert(s.subrange(i, i + e.len())[2 + k] == s[i + 2 + k]);
                assert(e[2 + k] == e2[k]);
            }
            assert(s.subrange(i + 2, i + 2 + e2.len()) =~= e2);
            assert(s[i + 2 + e2.len()] == '"');
            lemma_scan_escaped(s, i + 2, w2);
            assert(seq![s[i + 1]] + w2 =~= w);
        } else {
            assert(e[0] == c);
            assert(s[i] == c);
            assert forall|k: int| 0 <= k < e2.len() implies s.subrange(
                i + 1,
                i + 1 + e2.len(),
            )[k] == e2[k] by {
                assert(s.subrange(i, i + e.len())[1 + k] == s[i + 1 + k]);
                assert(e[1 + k] == e2[k]);
            }
            assert(s.subrange(i + 1, i + 1 + e2.len()) =~= e2);
            assert(s[i + 1 + e2.len()] == '"');
            lemma_scan_escaped(s, i + 1, w2);
            assert(seq![s[i]] + w2 =~= w);
        }
    }
}

/// Writing a message and parsing the text back yields exactly the
/// message's fields: the wire format loses nothing.
pub proof fn lemma_job_message_roundtrip(
    job_id: u128,
    registry: Seq<char>,
    package_name: Seq<char>,
)
    ensures
        spec_parse_job_message(spec_job_message_text(job_id, registry, package_name)) == Some(
            (job_id, registry, package_name),
        ),
{
    let l1 = "{\"job_id\":"@;
    let dd = spec_dec_digits(job_id as nat);
    let l2 = ",\"registry\":\""@;
    let e1 = spec_escape(registry);
    let q = "\""@;
    let l3 = ",\"package_name\":\""@;
    let e2 = spec_escape(package_name);
    let rb = "}"@;
    let s = spec_job_message_text(job_id, registry, package_name);
    reveal_strlit("{\"job_id\":");
    reveal_strlit(",\"registry\":\"");
    reveal_strlit("\"");
    reveal_strlit(",\"package_name\":\"");
    reveal_strlit("}");
    crate::ids::lemma_dec_digits_canonical(job_id as nat);
    crate::ids::lemma_dec_digits_value(job_id as nat);
    let i1 = l1.len() as int;
    let i2 = i1 + dd.len();
    let i3 = i2 + l2.len();
    let i4 = i3 + e1.len() + 1;
    let i5 = i4 + l3.len();
    let i6 = i5 + e2.len() + 1;
    assert(s.len() == i6 + 1);
    assert(s.subrange(0, i1) =~= l1);
    assert(spec_expect(s, 0, l1) == Some(i1));
    assert(s.subrange(i1, i2) =~= dd);
    assert(s[i2] == l2[0]);
    assert(l2[0] == ',');
    assert(!spec_char_is_digit(','));
    lemma_run_end_exact(s, i1, i2);
    assert(spec_digits_value(s.subrange(i1, i2)) == job_id);
    assert(spec_scan_number(s, i1) == Some((job_id, i2)));
    assert(s.subrange(i2, i3) =~= l2);
    assert(spec_expect(s, i2, l2) == Some(i3));
    assert(s.subrange(i3, i3 + e1.len()) =~= e1);
    assert(s[i3 + e1.len()] == q[0]);
    assert(q[0] == '"');
    lemma_scan_escaped(s, i3, registry);
    assert(spec_scan_string(s, i3) == Some((registry, i4)));
    assert(s.subrange(i4, i5) =~= l3);
    assert(spec_expect(s, i4, l3) == Some(i5));
    assert(s.subrange(i5, i5 + e2.len()) =~= e2);
    assert(s[i5 + e2.len()] == q[0]);
    lemma_scan_escaped(s, i5, package_name);
    assert(spec_scan_string(s, i5) == Some((package_name, i6)));
    assert(s.subrange(i6, i6 + 1) =~= rb);
    assert(spec_expect(s, i6, rb) == Some(s.len() as int));
}

/// Parses a work message from its wire text.  Exactly the texts that
/// `spec_parse_job_message` accepts yield a message, with exactly the
/// fields it gives; everything else — non-JSON or schema-mismatched — is
/// rejected.
pub fn parse_job_message(s: &str) -> (r: Option<JobMessage>)
    ensures
        match r {
            Some(m) => spec_parse_job_message(s@) == Some(
                (m.job_id, m.registry@, m.package_name@),
            ),
            None => spec_parse_job_message(s@) is None,
        },
{
    let i1 = match expect_lit(s, 0, "{\"job_id\":") {
        Some(j) => j,
        None => {
            return None;
        },
    };
    let (job_id, i2) = match scan_number(s, i1) {
        Some(p) => p,
        None => {
            return None;
        },
    };
    let i3 = match expect_lit(s, i2, ",\"registry\":\"") {
        Some(j) => j,
        None => {
            return None;
        },
    };
    let (registry, i4) = match scan_string(s, i3) {
        Some(p) => p,
        None => {
            return None;
        },
    };
    let i5 = match expect_lit(s, i4, ",\"package_name\":\"") {
        Some(j) => j,
        None => {
            return None;
        },
    };
    let (package_name, i6) = match scan_string(s, i5) {
        Some(p) => p,
        None => {
            return None;
        },
    };
    match expect_lit(s, i6, "}") {
        Some(j) => {
            if j == s.unicode_len() {
                Some(JobMessage { job_id, registry, package_name })
            } else {
                None
            }
        },
        None => None,
    }
}

} // verus!
