//! Splitting and joining of step-path strings. A step path is a sequence of
//! `/`-separated segments; each segment is a `::`-qualified name whose final
//! component is the step's short name. The spec functions mirror the
//! left-to-right, non-overlapping scan of the executable code.

use vstd::prelude::*;

verus! {

/// The two-character qualifier separator.
pub open spec fn sep2() -> Seq<char> {
    seq![':', ':']
}

/// The views of a vector of strings.
pub open spec fn views_of(v: Seq<String>) -> Seq<Seq<char>> {
    v.map_values(|t: String| t@)
}

/// Splits `s` at every occurrence of the character `sep`. Always yields at
/// least one (possibly empty) segment.
pub open spec fn split_at_seps(s: Seq<char>, sep: char) -> Seq<Seq<char>>
    decreases s.len(),
{
    if s.len() == 0 {
        seq![Seq::empty()]
    } else if s[0] == sep {
        seq![Seq::empty()] + split_at_seps(s.skip(1), sep)
    } else {
        let rest = split_at_seps(s.skip(1), sep);
        seq![seq![s[0]] + rest[0]] + rest.skip(1)
    }
}

/// Splits `s` at every non-overlapping occurrence of `::`, scanning from
/// the left. Always yields at least one (possibly empty) segment.
pub open spec fn split_at_sep2(s: Seq<char>) -> Seq<Seq<char>>
    decreases s.len(),
{
    if s.len() < 2 {
        seq![s]
    } else if s[0] == ':' && s[1] == ':' {
        seq![Seq::empty()] + split_at_sep2(s.skip(2))
    } else {
        let rest = split_at_sep2(s.skip(1));
        seq![seq![s[0]] + rest[0]] + rest.skip(1)
    }
}

/// Interleaves `sep` between the parts.
pub open spec fn join_with(parts: Seq<Seq<char>>, sep: Seq<char>) -> Seq<char>
    decreases parts.len(),
{
    if parts.len() == 0 {
        Seq::empty()
    } else if parts.len() == 1 {
        parts[0]
    } else {
        parts[0] + sep + join_with(parts.skip(1), sep)
    }
}

/// The module prefix of a `::`-qualified name: everything before the last
/// `::`, empty when the name is unqualified.
pub open spec fn module_of(s: Seq<char>) -> Seq<char> {
    join_with(split_at_sep2(s).drop_last(), sep2())
}

/// The short name of a `::`-qualified name: everything after the last `::`.
pub open spec fn name_of(s: Seq<char>) -> Seq<char> {
    split_at_sep2(s).last()
}

pub proof fn lemma_split_at_seps_len(s: Seq<char>, sep: char)
    ensures
        split_at_seps(s, sep).len() >= 1,
    decreases s.len(),
{
    if s.len() > 0 {
        lemma_split_at_seps_len(s.skip(1), sep);
    }
}

pub proof fn lemma_split_at_sep2_len(s: Seq<char>)
    ensures
        split_at_sep2(s).len() >= 1,
    decreases s.len(),
{
    if s.len() >= 2 {
        if s[0] == ':' && s[1] == ':' {
            lemma_split_at_sep2_len(s.skip(2));
        } else {
            lemma_split_at_sep2_len(s.skip(1));
        }
    }
}

/// Where the scan has seen no separator before `i`, the split either cuts
/// at `i` (when `s[i]` is the separator) or, at the end, keeps `s` whole.
pub proof fn lemma_split_char_at(s: Seq<char>, sep: char, i: int)
    requires
        0 <= i <= s.len(),
        forall|k: int| 0 <= k < i ==> s[k] != sep,
    ensures
        i < s.len() && s[i] == sep ==> split_at_seps(s, sep) =~~= seq![s.take(i)] + split_at_seps(
            s.skip(i + 1),
            sep,
        ),
        i == s.len() ==> split_at_seps(s, sep) =~~= seq![s],
    decreases i,
{
    lemma_split_at_seps_len(s.skip(1), sep);
    if i == 0 {
        if s.len() > 0 && s[0] == sep {
            assert(s.take(0) =~= Seq::<char>::empty());
        }
        if s.len() == 0 {
            assert(split_at_seps(s, sep) =~~= seq![s]);
        }
    } else {
        let t = s.skip(1);
        assert(forall|k: int| 0 <= k < i - 1 ==> t[k] != sep);
        lemma_split_char_at(t, sep, i - 1);
        let rest = split_at_seps(t, sep);
        if i < s.len() && s[i] == sep {
            assert(t[i - 1] == sep);
            assert(rest =~~= seq![t.take(i - 1)] + split_at_seps(t.skip(i), sep));
            assert(t.skip(i) =~= s.skip(i + 1));
            assert(rest[0] == t.take(i - 1));
            assert(seq![s[0]] + t.take(i - 1) =~= s.take(i));
            assert(rest.skip(1) =~~= split_at_seps(s.skip(i + 1), sep)) by {
                assert(rest.skip(1) =~~= (seq![t.take(i - 1)] + split_at_seps(
                    s.skip(i + 1),
                    sep,
                )).skip(1));
                assert((seq![t.take(i - 1)] + split_at_seps(s.skip(i + 1), sep)).skip(1)
                    =~~= split_at_seps(s.skip(i + 1), sep));
            }
        }
        if i == s.len() {
            assert(rest =~~= seq![t]);
            assert(rest[0] == t);
            assert(seq![s[0]] + t =~= s);
            assert(rest.skip(1) =~~= Seq::<Seq<char>>::empty());
            assert(split_at_seps(s, sep) =~~= seq![s]);
        }
    }
}

/// Where the scan has seen no `::` before `i`, the split either cuts at
/// `i` (when `::` stands there) or, once past the last possible start,
/// keeps `s` whole.
pub proof fn lemma_split_sep2_at(s: Seq<char>, i: int)
    requires
        0 <= i,
        i <= s.len(),
        forall|k: int| 0 <= k < i && k + 2 <= s.len() ==> !((#[trigger] s[k]) == ':' && s[k + 1] == ':'),
    ensures
        i + 2 <= s.len() && s[i] == ':' && s[i + 1] == ':' ==> split_at_sep2(s) =~~= seq![
            s.take(i),
        ] + split_at_sep2(s.skip(i + 2)),
        i + 1 >= s.len() ==> split_at_sep2(s) =~~= seq![s],
    decreases i,
{
    if i == 0 {
        if s.len() < 2 {
            assert(split_at_sep2(s) =~~= seq![s]);
        } else if s[0] == ':' && s[1] == ':' {
            assert(s.take(0) =~= Seq::<char>::empty());
        }
    } else {
        let t = s.skip(1);
        assert(forall|k: int| 0 <= k < i - 1 && k + 2 <= t.len() ==> !((#[trigger] t[k]) == ':'
            && t[k + 1] == ':'));
        lemma_split_sep2_at(t, i - 1);
        if s.len() < 2 {
            assert(split_at_sep2(s) =~~= seq![s]);
        } else {
            let rest = split_at_sep2(t);
            lemma_split_at_sep2_len(t);
            if i + 2 <= s.len() && s[i] == ':' && s[i + 1] == ':' {
                assert(t[i - 1] == ':' && t[i] == ':');
                assert(rest =~~= seq![t.take(i - 1)] + split_at_sep2(t.skip(i + 1)));
                assert(t.skip(i + 1) =~= s.skip(i + 2));
                assert(rest[0] == t.take(i - 1));
                assert(seq![s[0]] + t.take(i - 1) =~= s.take(i));
                assert(rest.skip(1) =~~= (seq![t.take(i - 1)] + split_at_sep2(s.skip(i + 2))).skip(
                    1,
                ));
                assert((seq![t.take(i - 1)] + split_at_sep2(s.skip(i + 2))).skip(1)
                    =~~= split_at_sep2(s.skip(i + 2)));
            }
            if i + 1 >= s.len() {
                assert((i - 1) + 1 >= t.len());
                assert(rest =~~= seq![t]);
                assert(rest[0] == t);
                assert(seq![s[0]] + t =~= s);
                assert(rest.skip(1) =~~= Seq::<Seq<char>>::empty());
                assert(split_at_sep2(s) =~~= seq![s]);
            }
        }
    }
}

/// Peeling the last part off a join.
pub proof fn lemma_join_with_snoc(parts: Seq<Seq<char>>, sep: Seq<char>)
    requires
        parts.len() >= 2,
    ensures
        join_with(parts, sep) =~= join_with(parts.drop_last(), sep) + sep + parts.last(),
    decreases parts.len(),
{
    if parts.len() == 2 {
        assert(parts.skip(1).len() == 1);
        assert(join_with(parts.skip(1), sep) == parts.skip(1)[0]);
        assert(parts.skip(1)[0] == parts[1]);
        assert(parts.drop_last() =~~= seq![parts[0]]);
    } else {
        lemma_join_with_snoc(parts.skip(1), sep);
        assert(parts.skip(1).drop_last() =~~= parts.drop_last().skip(1));
        assert(parts.skip(1).last() == parts.last());
        assert(join_with(parts.drop_last(), sep) == parts[0] + sep + join_with(
            parts.drop_last().skip(1),
            sep,
        )) by {
            assert(parts.drop_last().len() >= 2);
            assert(parts.drop_last()[0] == parts[0]);
        }
    }
}

/// Splits a string at every occurrence of `sep`.
pub fn split_on_char(s: &str, sep: char) -> (r: Vec<String>)
    ensures
        views_of(r@) =~~= split_at_seps(s@, sep),
        r@.len() >= 1,
{
    let n = s.unicode_len();
    let mut out: Vec<String> = Vec::new();
    let mut start: usize = 0;
    let mut i: usize = 0;
    proof {
        assert(views_of(out@) =~~= Seq::<Seq<char>>::empty());
        assert(s@.skip(0) =~= s@);
    }
    while i < n
        invariant
            start <= i <= n,
            n == s@.len(),
            forall|k: int| start <= k < i ==> s@[k] != sep,
            split_at_seps(s@, sep) =~~= views_of(out@) + split_at_seps(
                s@.skip(start as int),
                sep,
            ),
        decreases n - i,
    {
        if s.get_char(i) == sep {
            let piece = s.substring_char(start, i).to_owned();
            proof {
                let suff = s@.skip(start as int);
                assert(forall|k: int| 0 <= k < i - start ==> suff[k] != sep);
                assert(suff[i - start] == sep);
                lemma_split_char_at(suff, sep, i - start);
                assert(suff.take(i - start) =~= s@.subrange(start as int, i as int));
                assert(suff.skip(i - start + 1) =~= s@.skip(i + 1));
                assert(views_of(out@.push(piece)) =~~= views_of(out@) + seq![piece@]);
            }
            out.push(piece);
            start = i + 1;
        }
        i = i + 1;
    }
    let piece = s.substring_char(start, n).to_owned();
    proof {
        let suff = s@.skip(start as int);
        assert(forall|k: int| 0 <= k < suff.len() ==> suff[k] != sep);
        lemma_split_char_at(suff, sep, suff.len() as int);
        assert(suff =~= s@.subrange(start as int, n as int));
        assert(views_of(out@.push(piece)) =~~= views_of(out@) + seq![piece@]);
    }
    out.push(piece);
    out
}

/// Splits a string at every non-overlapping occurrence of `::`, scanning
/// from the left.
pub fn split_on_qualifier(s: &str) -> (r: Vec<String>)
    ensures
        views_of(r@) =~~= split_at_sep2(s@),
        r@.len() >= 1,
{
    let n = s.unicode_len();
    let limit: usize = if n == 0 { 0 } else { n - 1 };
    let mut out: Vec<String> = Vec::new();
    let mut start: usize = 0;
    let mut i: usize = 0;
    proof {
        assert(views_of(out@) =~~= Seq::<Seq<char>>::empty());
        assert(s@.skip(0) =~= s@);
    }
    while i < limit
        invariant
            start <= n,
            start <= i,
            i <= n,
            limit <= n,
            n == 0 ==> limit == 0,
            n >= 1 ==> limit == n - 1,
            n == s@.len(),
            forall|k: int| start <= k < i && k + 2 <= n ==> !((#[trigger] s@[k]) == ':' && s@[k + 1] == ':'),
            split_at_sep2(s@) =~~= views_of(out@) + split_at_sep2(s@.skip(start as int)),
        decreases n - i,
    {
        if s.get_char(i) == ':' && s.get_char(i + 1) == ':' {
            let piece = s.substring_char(start, i).to_owned();
            proof {
                let suff = s@.skip(start as int);
                assert(forall|k: int| 0 <= k < i - start && k + 2 <= suff.len() ==> !((
                #[trigger] suff[k]) == ':' && suff[k + 1] == ':'));
                assert(suff[i - start] == ':' && suff[i - start + 1] == ':');
                lemma_split_sep2_at(suff, i - start);
                assert(suff.take(i - start) =~= s@.subrange(start as int, i as int));
                assert(suff.skip(i - start + 2) =~= s@.skip(i + 2));
                assert(views_of(out@.push(piece)) =~~= views_of(out@) + seq![piece@]);
            }
            out.push(piece);
            start = i + 2;
            i = i + 2;
        } else {
            i = i + 1;
        }
    }
    let piece = s.substring_char(start, n).to_owned();
    proof {
        let suff = s@.skip(start as int);
        assert(forall|k: int| 0 <= k < suff.len() && k + 2 <= suff.len() ==> !((
        #[trigger] suff[k]) == ':' && suff[k + 1] == ':'));
        lemma_split_sep2_at(suff, suff.len() as int);
        assert(suff =~= s@.subrange(start as int, n as int));
        assert(views_of(out@.push(piece)) =~~= views_of(out@) + seq![piece@]);
    }
    out.push(piece);
    out
}

/// Joins the first `count` parts with `sep` between them.
pub fn join_prefix(parts: &Vec<String>, count: usize, sep: &str) -> (r: String)
    requires
        count <= parts@.len(),
    ensures
        r@ == join_with(views_of(parts@).take(count as int), sep@),
{
    let mut out = String::new();
    let mut i: usize = 0;
    proof {
        assert(views_of(parts@).take(0) =~~= Seq::<Seq<char>>::empty());
    }
    while i < count
        invariant
            i <= count,
            count <= parts@.len(),
            out@ == join_with(views_of(parts@).take(i as int), sep@),
        decreases count - i,
    {
        if i > 0 {
            out.append(sep);
        }
        let ghost before = out@;
        out.append(parts[i].as_str());
        proof {
            let vs = views_of(parts@);
            let pref = vs.take(i as int + 1);
            if i == 0 {
                assert(pref =~~= seq![vs[0]]);
                assert(join_with(pref, sep@) == vs[0]);
                assert(out@ =~= vs[0]);
            } else {
                assert(pref.len() >= 2);
                lemma_join_with_snoc(pref, sep@);
                assert(pref.drop_last() =~~= vs.take(i as int));
                assert(pref.last() == vs[i as int]);
                assert(out@ =~= join_with(vs.take(i as int), sep@) + sep@ + vs[i as int]);
            }
        }
        i = i + 1;
    }
    out
}

/// The module and name of one `::`-qualified segment.
pub fn split_step_module_and_name(input: &str) -> (r: (String, String))
    ensures
        r.0@ == module_of(input@),
        r.1@ == name_of(input@),
{
    let parts = split_on_qualifier(input);
    let name = parts[parts.len() - 1].clone();
    let module = join_prefix(&parts, parts.len() - 1, "::");
    proof {
        let vs = views_of(parts@);
        assert(vs.take(vs.len() - 1) =~~= vs.drop_last());
        assert(name@ == vs.last());
        reveal_strlit("::");
        assert("::"@ =~= sep2());
    }
    (module, name)
}

} // verus!
