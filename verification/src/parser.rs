use vstd::prelude::*;

verus! {

/// One point element read from a map file: its label and the raw texts
/// of its two coordinates. The caller converts the texts to numbers.
#[derive(Clone, Debug)]
pub struct GgbPoint {
    pub label: Vec<u8>,
    pub x_text: Vec<u8>,
    pub y_text: Vec<u8>,
}

/// The mathematical value of one parsed point.
pub struct GgbPointView {
    pub label: Seq<u8>,
    pub x_text: Seq<u8>,
    pub y_text: Seq<u8>,
}

impl View for GgbPoint {
    type V = GgbPointView;

    open spec fn view(&self) -> GgbPointView {
        GgbPointView { label: self.label@, x_text: self.x_text@, y_text: self.y_text@ }
    }
}

/// `<element` as bytes.
pub open spec fn pat_element() -> Seq<u8> {
    seq![60u8, 101u8, 108u8, 101u8, 109u8, 101u8, 110u8, 116u8]
}

/// `<coords` as bytes.
pub open spec fn pat_coords() -> Seq<u8> {
    seq![60u8, 99u8, 111u8, 111u8, 114u8, 100u8, 115u8]
}

/// `>` as bytes.
pub open spec fn pat_gt() -> Seq<u8> {
    seq![62u8]
}

/// `"` as bytes.
pub open spec fn pat_quote() -> Seq<u8> {
    seq![34u8]
}

/// `type="` as bytes.
pub open spec fn pat_type_attr() -> Seq<u8> {
    seq![116u8, 121u8, 112u8, 101u8, 61u8, 34u8]
}

/// `label="` as bytes.
pub open spec fn pat_label_attr() -> Seq<u8> {
    seq![108u8, 97u8, 98u8, 101u8, 108u8, 61u8, 34u8]
}

/// ` x="` as bytes (the leading space keeps it off `fix="` and the like).
pub open spec fn pat_x_attr() -> Seq<u8> {
    seq![32u8, 120u8, 61u8, 34u8]
}

/// ` y="` as bytes.
pub open spec fn pat_y_attr() -> Seq<u8> {
    seq![32u8, 121u8, 61u8, 34u8]
}

/// `point` as bytes.
pub open spec fn pat_point() -> Seq<u8> {
    seq![112u8, 111u8, 105u8, 110u8, 116u8]
}

/// The pattern occurs in `s` at position `i`.
pub open spec fn match_at(s: Seq<u8>, i: int, pat: Seq<u8>) -> bool {
    0 <= i && i + pat.len() <= s.len() && s.subrange(i, i + pat.len()) == pat
}

/// First position at or after `from` where the pattern occurs, or -1.
pub open spec fn find_spec(s: Seq<u8>, from: int, pat: Seq<u8>) -> int
    recommends
        0 <= from,
    decreases s.len() - from + 1 when 0 <= from
{
    if from + pat.len() > s.len() {
        -1
    } else if match_at(s, from, pat) {
        from
    } else {
        find_spec(s, from + 1, pat)
    }
}

proof fn lemma_find_spec_found(s: Seq<u8>, from: int, pat: Seq<u8>, i: int)
    requires
        0 <= from <= i,
        match_at(s, i, pat),
        forall|k: int| from <= k < i ==> !match_at(s, k, pat),
    ensures
        find_spec(s, from, pat) == i,
    decreases i - from,
{
    if from < i {
        lemma_find_spec_found(s, from + 1, pat, i);
    }
}

proof fn lemma_find_spec_none(s: Seq<u8>, from: int, pat: Seq<u8>)
    requires
        0 <= from,
        forall|k: int| from <= k ==> !match_at(s, k, pat),
    ensures
        find_spec(s, from, pat) == -1,
    decreases s.len() - from + 1,
{
    if from + pat.len() <= s.len() {
        lemma_find_spec_none(s, from + 1, pat);
    }
}

/// The found position is in range and at least `from`.
pub proof fn lemma_find_spec_range(s: Seq<u8>, from: int, pat: Seq<u8>)
    requires
        0 <= from,
    ensures
        find_spec(s, from, pat) == -1 || (from <= find_spec(s, from, pat) && find_spec(
            s,
            from,
            pat,
        ) + pat.len() <= s.len()),
    decreases s.len() - from + 1,
{
    if from <= s.len() && from + pat.len() <= s.len() && !match_at(s, from, pat) {
        lemma_find_spec_range(s, from + 1, pat);
    }
}

/// Find the first occurrence of `pat` in `s` at or after `from`.
pub fn find(s: &Vec<u8>, from: usize, pat: &Vec<u8>) -> (r: Option<usize>)
    ensures
        r matches Some(i) ==> {
            &&& find_spec(s@, from as int, pat@) == i
            &&& from <= i
            &&& i + pat@.len() <= s@.len()
        },
        r.is_none() ==> find_spec(s@, from as int, pat@) == -1,
{
    let n = s.len();
    let m = pat.len();
    if m > n {
        proof {
            lemma_find_spec_none(s@, from as int, pat@);
        }
        return None;
    }
    let mut i = from;
    while i <= n - m
        invariant
            m <= n == s@.len(),
            m == pat@.len(),
            from <= i,
            forall|k: int| from <= k < i ==> !match_at(s@, k, pat@),
        decreases n - m + 1 - i,
    {
        let mut j: usize = 0;
        let mut hit = true;
        while j < m
            invariant
                m <= n == s@.len(),
                m == pat@.len(),
                i + m <= n,
                j <= m,
                hit <==> s@.subrange(i as int, i + j as int) =~= pat@.subrange(0, j as int),
            decreases m - j,
        {
            if s[i + j] != pat[j] {
                proof {
                    assert(s@.subrange(i as int, i + j + 1)[j as int] != pat@.subrange(
                        0,
                        j as int + 1,
                    )[j as int]);
                }
                hit = false;
                j = m;
            } else {
                proof {
                    if hit {
                        assert(s@.subrange(i as int, i + j + 1) =~= s@.subrange(
                            i as int,
                            i + j as int,
                        ).push(s@[i + j]));
                        assert(pat@.subrange(0, j as int + 1) =~= pat@.subrange(0, j as int).push(
                            pat@[j as int],
                        ));
                    }
                }
                j = j + 1;
            }
        }
        if hit {
            proof {
                assert(s@.subrange(i as int, i + m) =~= pat@);
                lemma_find_spec_found(s@, from as int, pat@, i as int);
            }
            return Some(i);
        }
        proof {
            if match_at(s@, i as int, pat@) {
                assert(s@.subrange(i as int, i + m) =~= pat@.subrange(0, m as int));
                assert(false);
            }
        }
        i = i + 1;
    }
    proof {
        assert(forall|k: int| from <= k ==> !match_at(s@, k, pat@));
        lemma_find_spec_none(s@, from as int, pat@);
    }
    None
}

/// The value of the attribute whose `key="` pattern first occurs in
/// `[from, until)`: the bytes between the opening quote and the next
/// quote. Missing or unterminated attributes yield the empty run.
pub open spec fn attr_spec(s: Seq<u8>, from: int, until: int, key: Seq<u8>) -> Seq<u8> {
    let k = find_spec(s, from, key);
    if k < 0 || k + key.len() > until {
        Seq::empty()
    } else {
        let v = k + key.len();
        let q = find_spec(s, v, pat_quote());
        if q < 0 {
            Seq::empty()
        } else {
            s.subrange(v, q)
        }
    }
}

/// Read one attribute value out of the tag between `from` and `until`.
pub fn attr(s: &Vec<u8>, from: usize, until: usize, key: &Vec<u8>) -> (r: Vec<u8>)
    requires
        until <= s@.len(),
    ensures
        r@ == attr_spec(s@, from as int, until as int, key@),
{
    let k = match find(s, from, key) {
        Some(k) => k,
        None => {
            return Vec::new();
        },
    };
    if k > until || key.len() > until - k {
        return Vec::new();
    }
    let v = k + key.len();
    let quote: Vec<u8> = vec![34u8];
    proof {
        assert(quote@ =~= pat_quote());
    }
    let q = match find(s, v, &quote) {
        Some(q) => q,
        None => {
            return Vec::new();
        },
    };
    let mut out: Vec<u8> = Vec::new();
    let mut p = v;
    while p < q
        invariant
            v <= p <= q,
            q <= s@.len(),
            out@ =~= s@.subrange(v as int, p as int),
        decreases q - p,
    {
        out.push(s[p]);
        proof {
            assert(out@ =~= s@.subrange(v as int, p + 1));
        }
        p = p + 1;
    }
    proof {
        assert(out@ =~= s@.subrange(v as int, q as int));
    }
    out
}


/// The mathematical values of a run of parsed points.
pub open spec fn points_view(v: Seq<GgbPoint>) -> Seq<GgbPointView> {
    v.map_values(|p: GgbPoint| p@)
}

/// All point elements of a map file, scanning from `pos`: each
/// `<element ... type="point" ...>` contributes its label and the `x` and
/// `y` attributes of the `<coords .../>` tag that follows it; any other
/// element is skipped. A truncated file (an unclosed tag, or a point with
/// no coordinates) ends the scan.
pub open spec fn scan_points_spec(s: Seq<u8>, pos: int) -> Seq<GgbPointView>
    decreases s.len() - pos + 1 when 0 <= pos via scan_points_spec_decreases
{
    let e = find_spec(s, pos, pat_element());
    if e < 0 {
        Seq::empty()
    } else {
        let te = find_spec(s, e, pat_gt());
        if te < 0 {
            Seq::empty()
        } else {
            if attr_spec(s, e, te, pat_type_attr()) == pat_point() {
                let c = find_spec(s, te, pat_coords());
                if c < 0 {
                    Seq::empty()
                } else {
                    let ce = find_spec(s, c, pat_gt());
                    if ce < 0 {
                        Seq::empty()
                    } else {
                        seq![
                            GgbPointView {
                                label: attr_spec(s, e, te, pat_label_attr()),
                                x_text: attr_spec(s, c, ce, pat_x_attr()),
                                y_text: attr_spec(s, c, ce, pat_y_attr()),
                            },
                        ] + scan_points_spec(s, ce + 1)
                    }
                }
            } else {
                scan_points_spec(s, te + 1)
            }
        }
    }
}

#[via_fn]
proof fn scan_points_spec_decreases(s: Seq<u8>, pos: int) {
    lemma_find_spec_range(s, pos, pat_element());
    let e = find_spec(s, pos, pat_element());
    if e >= 0 {
        lemma_find_spec_range(s, e, pat_gt());
        let te = find_spec(s, e, pat_gt());
        if te >= 0 {
            lemma_find_spec_range(s, te, pat_coords());
            let c = find_spec(s, te, pat_coords());
            if c >= 0 {
                lemma_find_spec_range(s, c, pat_gt());
            }
        }
    }
}

/// Scan a map file's text for its point elements.
pub fn scan_points(s: &Vec<u8>) -> (r: Vec<GgbPoint>)
    ensures
        points_view(r@) == scan_points_spec(s@, 0),
{
    let pat_el: Vec<u8> = vec![60u8, 101u8, 108u8, 101u8, 109u8, 101u8, 110u8, 116u8];
    let pat_co: Vec<u8> = vec![60u8, 99u8, 111u8, 111u8, 114u8, 100u8, 115u8];
    let pat_g: Vec<u8> = vec![62u8];
    let pat_ty: Vec<u8> = vec![116u8, 121u8, 112u8, 101u8, 61u8, 34u8];
    let pat_la: Vec<u8> = vec![108u8, 97u8, 98u8, 101u8, 108u8, 61u8, 34u8];
    let pat_xa: Vec<u8> = vec![32u8, 120u8, 61u8, 34u8];
    let pat_ya: Vec<u8> = vec![32u8, 121u8, 61u8, 34u8];
    let pat_po: Vec<u8> = vec![112u8, 111u8, 105u8, 110u8, 116u8];
    proof {
        assert(pat_el@ =~= pat_element());
        assert(pat_co@ =~= pat_coords());
        assert(pat_g@ =~= pat_gt());
        assert(pat_ty@ =~= pat_type_attr());
        assert(pat_la@ =~= pat_label_attr());
        assert(pat_xa@ =~= pat_x_attr());
        assert(pat_ya@ =~= pat_y_attr());
        assert(pat_po@ =~= pat_point());
    }
    let mut acc: Vec<GgbPoint> = Vec::new();
    let mut pos: usize = 0;
    let n = s.len();
    loop
        invariant
            n == s@.len(),
            pos <= s@.len() + 1,
            points_view(acc@) + scan_points_spec(s@, pos as int) =~= scan_points_spec(s@, 0),
            pat_el@ == pat_element(),
            pat_co@ == pat_coords(),
            pat_g@ == pat_gt(),
            pat_ty@ == pat_type_attr(),
            pat_la@ == pat_label_attr(),
            pat_xa@ == pat_x_attr(),
            pat_ya@ == pat_y_attr(),
            pat_po@ == pat_point(),
        ensures
            points_view(acc@) == scan_points_spec(s@, 0),
        decreases s@.len() - pos + 1,
    {
        let e = match find(s, pos, &pat_el) {
            Some(e) => e,
            None => {
                proof {
                    assert(points_view(acc@) =~= scan_points_spec(s@, 0));
                }
                break ;
            },
        };
        let te = match find(s, e, &pat_g) {
            Some(te) => te,
            None => {
                proof {
                    assert(points_view(acc@) =~= scan_points_spec(s@, 0));
                }
                break ;
            },
        };
        let ty = attr(s, e, te, &pat_ty);
        let is_point = eq_bytes(&ty, &pat_po);
        if is_point {
            let c = match find(s, te, &pat_co) {
                Some(c) => c,
                None => {
                    proof {
                        assert(points_view(acc@) =~= scan_points_spec(s@, 0));
                    }
                    break ;
                },
            };
            let ce = match find(s, c, &pat_g) {
                Some(ce) => ce,
                None => {
                    proof {
                        assert(points_view(acc@) =~= scan_points_spec(s@, 0));
                    }
                    break ;
                },
            };
            let p = GgbPoint {
                label: attr(s, e, te, &pat_la),
                x_text: attr(s, c, ce, &pat_xa),
                y_text: attr(s, c, ce, &pat_ya),
            };
            let ghost old_acc = acc@;
            acc.push(p);
            proof {
                assert(points_view(acc@) =~= points_view(old_acc).push(p@));
                assert(points_view(acc@) + scan_points_spec(s@, ce + 1) =~= scan_points_spec(
                    s@,
                    0,
                ));
            }
            pos = ce + 1;
        } else {
            proof {
                assert(points_view(acc@) + scan_points_spec(s@, te + 1) =~= scan_points_spec(
                    s@,
                    0,
                ));
            }
            pos = te + 1;
        }
    }
    acc
}

/// The two byte runs are equal.
fn eq_bytes(a: &Vec<u8>, b: &Vec<u8>) -> (r: bool)
    ensures
        r <==> a@ == b@,
{
    if a.len() != b.len() {
        return false;
    }
    let n = a.len();
    let mut i: usize = 0;
    while i < n
        invariant
            n == a@.len() == b@.len(),
            i <= n,
            forall|k: int| 0 <= k < i ==> a@[k] == b@[k],
        decreases n - i,
    {
        if a[i] != b[i] {
            return false;
        }
        i = i + 1;
    }
    proof {
        assert(a@ =~= b@);
    }
    true
}

#[verifier::external_type_specification]
#[verifier::external_body]
#[verifier::reject_recursive_types(R)]
pub struct ExZipArchive<R>(zip::ZipArchive<R>);

#[verifier::external_type_specification]
#[verifier::external_body]
#[verifier::reject_recursive_types(T)]
pub struct ExCursor<T>(std::io::Cursor<T>);

/// Relies on zip::ZipArchive::new: opens a zip archive over in-memory
/// bytes; an invalid archive yields nothing.
#[verifier::external_body]
fn zip_open(bytes: Vec<u8>) -> (r: Option<zip::ZipArchive<std::io::Cursor<Vec<u8>>>>) {
    zip::ZipArchive::new(std::io::Cursor::new(bytes)).ok()
}

/// Relies on zip::ZipArchive::by_name and std::io::Read::read_to_end: the
/// named member's decompressed bytes, or nothing when the member is
/// missing or damaged.
#[verifier::external_body]
fn zip_entry_bytes(
    archive: &mut zip::ZipArchive<std::io::Cursor<Vec<u8>>>,
    name: &str,
) -> (r: Option<Vec<u8>>) {
    match archive.by_name(name) {
        Ok(mut f) => {
            let mut v = Vec::new();
            match std::io::Read::read_to_end(&mut f, &mut v) {
                Ok(_) => Some(v),
                Err(_) => None,
            }
        },
        Err(_) => None,
    }
}

/// Parse a map file: open the archive the bytes hold, pull the geometry
/// description out of it, and scan that text for its point elements.
/// Whatever text the archive turns out to hold, the returned points are
/// exactly what scanning it yields; an unreadable archive yields nothing.
pub fn parse_map(ggb: &Vec<u8>) -> (r: Option<Vec<GgbPoint>>)
    ensures
        r matches Some(pts) ==> exists|xml: Seq<u8>|
            points_view(pts@) == #[trigger] scan_points_spec(xml, 0),
{
    let mut archive = match zip_open(ggb.clone()) {
        Some(a) => a,
        None => {
            return None;
        },
    };
    let xml = match zip_entry_bytes(&mut archive, "geogebra.xml") {
        Some(x) => x,
        None => {
            return None;
        },
    };
    let pts = scan_points(&xml);
    proof {
        assert(points_view(pts@) == scan_points_spec(xml@, 0));
    }
    Some(pts)
}

} // verus!
