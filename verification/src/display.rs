//! The display string of a pipeline is itself a line: it parses to the same
//! pipeline, in the foreground.

use crate::parser::{
    first_violation, lemma_scan_markers, parse_line, parse_stage, pipe_char, pipe_separator, scan,
    scan_token, stage_info, stage_reprs, stages, violation, CmdLineView, CmdView, ExtraInfoView,
    ParseError,
};
use crate::text::{
    is_solid, is_whitespace, join, lemma_join_lacks, lemma_split_concat, lemma_split_join,
    lemma_split_of_plain, lemma_words_are_solid, lemma_words_come_from_text, lemma_words_of_join,
    lemma_words_seam, split, words,
};
use vstd::prelude::*;

verus! {

/// The tokens of a stage that its display string shows: all but a background
/// marker at the end.
pub open spec fn shown_tokens(tokens: Seq<Seq<char>>) -> Seq<Seq<char>> {
    if scan(tokens, tokens.len()).marker_last {
        tokens.drop_last()
    } else {
        tokens
    }
}

/// A scan reads no further than it has come.
proof fn lemma_scan_prefix(a: Seq<Seq<char>>, b: Seq<Seq<char>>, n: nat)
    requires
        n <= a.len(),
        n <= b.len(),
        forall|k: int| 0 <= k < n ==> a[k] == b[k],
    ensures
        scan(a, n) == scan(b, n),
    decreases n,
{
    if n > 1 {
        lemma_scan_prefix(a, b, (n - 1) as nat);
    }
}

/// A piece that has the words of a stage's display string parses to the same
/// stage without the background marker.
pub proof fn lemma_stage_reads_back(piece: Seq<char>, shown: Seq<char>)
    requires
        parse_stage(piece) matches Ok(Some((_, info))) && !info.stray_marker && words(shown)
            == words(info.repr_string),
    ensures
        parse_stage(piece) matches Ok(Some((cmd, info))) && parse_stage(shown) == Ok::<
            Option<(CmdView, ExtraInfoView)>,
            ParseError,
        >(Some((cmd, ExtraInfoView { is_daemon: false, ..info }))),
{
    let tokens = words(piece);
    let n = tokens.len();
    let end = scan(tokens, n);
    let kept = shown_tokens(tokens);
    lemma_words_are_solid(piece);
    lemma_scan_markers(tokens, n);
    assert forall|i: int| 0 <= i < kept.len() implies is_solid(#[trigger] kept[i]) by {
        assert(kept[i] == tokens[i]);
    }
    lemma_words_of_join(kept);
    assert(words(shown) == kept);
    if end.marker_last {
        let before = scan(tokens, (n - 1) as nat);
        lemma_scan_prefix(kept, tokens, (n - 1) as nat);
        lemma_scan_markers(tokens, (n - 1) as nat);
        assert(end == scan_token(before, tokens[n - 1]));
        assert(!before.marker_last);
        assert(!before.background);
        assert(scan(kept, kept.len()) == before);
    } else {
        assert(!end.background);
    }
}

/// The pieces of a display string: one for each stage, with the words of the
/// stage's own display string; one empty piece where there is no stage.
pub proof fn lemma_display_pieces(reprs: Seq<Seq<char>>)
    requires
        forall|k: int| 0 <= k < reprs.len() ==> !(#[trigger] reprs[k]).contains(pipe_char()),
    ensures
        reprs.len() == 0 ==> split(join(reprs, pipe_separator()), pipe_char()) == seq![
            Seq::<char>::empty(),
        ],
        reprs.len() > 0 ==> split(join(reprs, pipe_separator()), pipe_char()).len() == reprs.len(),
        forall|k: int|
            0 <= k < reprs.len() ==> words(
                #[trigger] split(join(reprs, pipe_separator()), pipe_char())[k],
            ) == words(reprs[k]),
    decreases reprs.len(),
{
    let whole = join(reprs, pipe_separator());
    let pieces = split(whole, pipe_char());
    if reprs.len() == 0 {
        assert(pieces =~~= seq![Seq::<char>::empty()]);
    } else if reprs.len() == 1 {
        lemma_split_of_plain(reprs[0], pipe_char());
    } else {
        let rest = reprs.drop_last();
        let last = reprs.last();
        let head = join(rest, pipe_separator());
        let before = split(head, pipe_char());
        assert forall|k: int| 0 <= k < rest.len() implies !(#[trigger] rest[k]).contains(
            pipe_char(),
        ) by {
            assert(rest[k] == reprs[k]);
        }
        lemma_display_pieces(rest);
        let padded = head.push(' ');
        let tail = seq![' '] + last;
        assert(whole =~= padded.push(pipe_char()) + tail);
        lemma_split_concat(padded, tail, pipe_char());
        assert(padded.drop_last() =~= head);
        lemma_split_join(head, pipe_char());
        let grown = before.drop_last().push(before.last().push(' '));
        assert(split(padded, pipe_char()) == grown);
        assert(!tail.contains(pipe_char())) by {
            if tail.contains(pipe_char()) {
                let k = choose|k: int| 0 <= k < tail.len() && tail[k] == pipe_char();
                assert(last[k - 1] == pipe_char());
                assert(reprs[reprs.len() - 1].contains(pipe_char()));
            }
        }
        lemma_split_of_plain(tail, pipe_char());
        assert(pieces == grown + seq![tail]);
        assert forall|k: int| 0 <= k < reprs.len() implies words(#[trigger] pieces[k]) == words(
            reprs[k],
        ) by {
            if k < reprs.len() - 2 {
                assert(pieces[k] == before[k]);
                assert(rest[k] == reprs[k]);
            } else if k == reprs.len() - 2 {
                let seam = before.last().push(' ');
                assert(pieces[k] == seam);
                assert(seam.drop_last() =~= before.last());
                assert(words(seam) == words(before.last()));
                assert(before.last() == before[k]);
                assert(rest[k] == reprs[k]);
            } else {
                assert(pieces[k] == tail);
                lemma_words_seam(seq![' '], last);
                let blank = seq![' '];
                assert(blank.drop_last() =~= Seq::<char>::empty());
                assert(blank.last() == ' ');
                assert(is_whitespace(' '));
                assert(words(blank.drop_last()) =~= Seq::<Seq<char>>::empty());
                assert(words(blank) =~= Seq::<Seq<char>>::empty());
                assert(words(seq![' ']) + words(last) =~= words(last));
            }
        }
    }
}

/// What the stages of the first `n` pieces say about the pipeline, in order.
pub open spec fn stage_infos(pieces: Seq<Seq<char>>, n: nat) -> Seq<ExtraInfoView>
    decreases n,
{
    if n == 0 {
        Seq::empty()
    } else {
        match parse_stage(pieces[n - 1]) {
            Ok(Some((_, info))) => stage_infos(pieces, (n - 1) as nat).push(info),
            _ => stage_infos(pieces, (n - 1) as nat),
        }
    }
}

/// The stages, their remarks and their display strings go side by side.
proof fn lemma_parallel(pieces: Seq<Seq<char>>, n: nat)
    ensures
        stages(pieces, n).len() == stage_infos(pieces, n).len(),
        stage_reprs(pieces, n).len() == stage_infos(pieces, n).len(),
        stages(pieces, n).len() <= n,
        forall|k: int|
            0 <= k < stage_infos(pieces, n).len() ==> (#[trigger] stage_reprs(pieces, n)[k])
                == stage_infos(pieces, n)[k].repr_string,
    decreases n,
{
    if n > 0 {
        lemma_parallel(pieces, (n - 1) as nat);
    }
}

/// The piece that stage `k` comes from: it parses to that stage, and `k`
/// stages come from the pieces before it.
proof fn lemma_origin(pieces: Seq<Seq<char>>, n: nat, k: int) -> (i: int)
    requires
        n <= pieces.len(),
        0 <= k < stages(pieces, n).len(),
    ensures
        0 <= i < n,
        stage_infos(pieces, n).len() == stages(pieces, n).len(),
        parse_stage(pieces[i]) == Ok::<Option<(CmdView, ExtraInfoView)>, ParseError>(
            Some((stages(pieces, n)[k], stage_infos(pieces, n)[k])),
        ),
        stages(pieces, i as nat).len() == k,
    decreases n,
{
    lemma_parallel(pieces, n);
    lemma_parallel(pieces, (n - 1) as nat);
    if k == stages(pieces, (n - 1) as nat).len() {
        n - 1
    } else {
        lemma_origin(pieces, (n - 1) as nat, k)
    }
}

/// The stage that piece `i` gives: it is the one behind the stages of the
/// pieces before it.
proof fn lemma_rank(pieces: Seq<Seq<char>>, n: nat, i: int)
    requires
        0 <= i < n <= pieces.len(),
        parse_stage(pieces[i]) matches Ok(Some(_)),
    ensures
        stages(pieces, i as nat).len() < stages(pieces, n).len(),
        stage_infos(pieces, n).len() == stages(pieces, n).len(),
        parse_stage(pieces[i]) == Ok::<Option<(CmdView, ExtraInfoView)>, ParseError>(
            Some(
                (
                    stages(pieces, n)[stages(pieces, i as nat).len() as int],
                    stage_infos(pieces, n)[stages(pieces, i as nat).len() as int],
                ),
            ),
        ),
        i == n - 1 ==> stages(pieces, i as nat).len() == stages(pieces, n).len() - 1,
    decreases n,
{
    lemma_parallel(pieces, n);
    lemma_parallel(pieces, (n - 1) as nat);
    if i < n - 1 {
        lemma_rank(pieces, (n - 1) as nat, i);
    }
}

/// Pieces that parse to given stages, one each, give those stages.
proof fn lemma_collect(d: Seq<Seq<char>>, s: Seq<CmdView>, j: Seq<ExtraInfoView>, m: nat)
    requires
        m <= d.len(),
        m <= s.len(),
        m <= j.len(),
        forall|k: int|
            0 <= k < m ==> parse_stage(#[trigger] d[k]) == Ok::<
                Option<(CmdView, ExtraInfoView)>,
                ParseError,
            >(Some((s[k], j[k]))),
    ensures
        stages(d, m) == s.take(m as int),
        stage_reprs(d, m) == Seq::new(m, |k: int| j[k].repr_string),
    decreases m,
{
    if m == 0 {
        assert(stages(d, m) =~= s.take(m as int));
        assert(stage_reprs(d, m) =~= Seq::new(m, |k: int| j[k].repr_string));
    } else {
        lemma_collect(d, s, j, (m - 1) as nat);
        assert(parse_stage(d[m - 1]) == Ok::<Option<(CmdView, ExtraInfoView)>, ParseError>(
            Some((s[m - 1], j[m - 1])),
        ));
        assert(stages(d, m) =~= s.take(m as int));
        assert(stage_reprs(d, m) =~= Seq::new(m, |k: int| j[k].repr_string));
    }
}

/// Where no piece breaks a rule, there is no first that does.
proof fn lemma_none_broken(d: Seq<Seq<char>>, m: nat)
    requires
        forall|k: int| 0 <= k < m ==> violation(d, k) is None,
    ensures
        first_violation(d, m) is None,
    decreases m,
{
    if m > 0 {
        lemma_none_broken(d, (m - 1) as nat);
    }
}

/// The display string of a stage holds no pipe character.
proof fn lemma_repr_lacks_pipe(line: Seq<char>, i: int)
    requires
        0 <= i < split(line, pipe_char()).len(),
        parse_stage(split(line, pipe_char())[i]) matches Ok(Some(_)),
    ensures
        parse_stage(split(line, pipe_char())[i]) matches Ok(Some((_, info)))
            && !info.repr_string.contains(pipe_char()),
{
    let piece = split(line, pipe_char())[i];
    let tokens = words(piece);
    let kept = shown_tokens(tokens);
    lemma_split_join(line, pipe_char());
    assert forall|t: int| 0 <= t < kept.len() implies !(#[trigger] kept[t]).contains(pipe_char()) by {
        if kept[t].contains(pipe_char()) {
            let c = choose|c: int| 0 <= c < kept[t].len() && kept[t][c] == pipe_char();
            assert(kept[t] == tokens[t]);
            lemma_words_come_from_text(piece, t, c);
        }
    }
    assert(!seq![' '].contains(pipe_char()));
    lemma_join_lacks(kept, seq![' '], pipe_char());
}

/// The display string of a pipeline parses to the same pipeline, but for
/// the background flag: read back, the pipeline runs in the foreground.
pub proof fn lemma_display_parses_back(line: Seq<char>)
    requires
        parse_line(line) is Ok,
    ensures
        parse_line(line) matches Ok(pipeline) && parse_line(pipeline.repr_string) == Ok::<
            CmdLineView,
            ParseError,
        >(CmdLineView { is_daemon: false, ..pipeline }),
{
    let pieces = split(line, pipe_char());
    let n = pieces.len();
    let pipeline = parse_line(line)->Ok_0;
    let s = stages(pieces, n);
    let infos = stage_infos(pieces, n);
    let reprs = stage_reprs(pieces, n);
    let m = s.len();
    let shown = pipeline.repr_string;
    let d = split(shown, pipe_char());
    lemma_split_join(line, pipe_char());
    lemma_parallel(pieces, n);
    assert(shown == join(reprs, pipe_separator()));
    assert forall|k: int| 0 <= k < reprs.len() implies !(#[trigger] reprs[k]).contains(
        pipe_char(),
    ) by {
        let i = lemma_origin(pieces, n, k);
        lemma_repr_lacks_pipe(line, i);
    }
    lemma_display_pieces(reprs);
    if m == 0 {
        if parse_stage(pieces[0]) matches Ok(Some(_)) {
            lemma_rank(pieces, n, 0);
        }
        if parse_stage(pieces[n - 1]) matches Ok(Some(_)) {
            lemma_rank(pieces, n, n - 1);
        }
        assert(words(d[0]) =~= Seq::<Seq<char>>::empty());
        assert(parse_stage(d[0]) == Ok::<Option<(CmdView, ExtraInfoView)>, ParseError>(None));
        assert(stages(d, 0) =~= Seq::<CmdView>::empty());
        assert(stage_reprs(d, 0) =~= Seq::<Seq<char>>::empty());
        assert(first_violation(d, 0) is None);
        assert(violation(d, 0) is None);
        assert(s =~= Seq::<CmdView>::empty());
        assert(reprs =~= Seq::<Seq<char>>::empty());
    } else {
        let j = Seq::new(m, |k: int| ExtraInfoView { is_daemon: false, ..infos[k] });
        assert forall|k: int| 0 <= k < m implies parse_stage(#[trigger] d[k]) == Ok::<
            Option<(CmdView, ExtraInfoView)>,
            ParseError,
        >(Some((s[k], j[k]))) && violation(d, k) is None by {
            let i = lemma_origin(pieces, n, k);
            lemma_placement_of(line, i);
            assert(reprs[k] == infos[k].repr_string);
            lemma_stage_reads_back(pieces[i], d[k]);
            if i == n - 1 {
                lemma_rank(pieces, n, i);
            }
        }
        lemma_collect(d, s, j, m);
        lemma_none_broken(d, m);
        assert(s.take(m as int) =~= s);
        assert(Seq::new(m, |k: int| j[k].repr_string) =~= reprs);
        let first = lemma_origin(pieces, n, 0);
        lemma_placement_of(line, first);
        if parse_stage(pieces[0]) matches Ok(Some(_)) {
            lemma_rank(pieces, n, 0);
            assert(stages(pieces, 0).len() == 0);
        }
        let last = lemma_origin(pieces, n, m - 1);
        lemma_placement_of(line, last);
        if parse_stage(pieces[n - 1]) matches Ok(Some(_)) {
            lemma_rank(pieces, n, n - 1);
        }
        assert(stage_info(d[0]) == Some(j[0]));
        assert(stage_info(d[m - 1]) == Some(j[m - 1]));
    }
}

/// The stage in piece `i` of a line that is a pipeline stands where it may.
proof fn lemma_placement_of(line: Seq<char>, i: int)
    requires
        parse_line(line) is Ok,
        0 <= i < split(line, pipe_char()).len(),
    ensures
        violation(split(line, pipe_char()), i) is None,
{
    crate::parser::lemma_placement(line, i);
}

} // verus!
