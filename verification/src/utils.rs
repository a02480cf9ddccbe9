//! Reading magnet links out of a text file's contents.

use vstd::prelude::*;
use crate::text::{
    is_unicode_whitespace, chars_find, chars_start_with, lemma_find_from, lines, starts_with, str_chars, string_from_chars,
    strip_cr, trim_end, trim_end_len,
};

verus! {

/// A line that names something to download: a magnet link or an http,
/// https, ftp or ftps URL.
pub open spec fn is_link_line(line: Seq<char>) -> bool {
    ||| starts_with(line, "magnet:"@)
    ||| starts_with(line, "https://"@)
    ||| starts_with(line, "http://"@)
    ||| starts_with(line, "ftp://"@)
    ||| starts_with(line, "ftps://"@)
}

/// The link lines among `ls`, in order, each without trailing whitespace.
pub open spec fn link_lines(ls: Seq<Seq<char>>) -> Seq<Seq<char>>
    decreases ls.len(),
{
    if ls.len() == 0 {
        Seq::empty()
    } else {
        (if is_link_line(ls[0]) {
            seq![trim_end(ls[0])]
        } else {
            Seq::empty()
        }) + link_lines(ls.drop_first())
    }
}

/// The magnet links of a text: the lines of `text` that start with
/// `magnet:`, `https://`, `http://`, `ftp://` or `ftps://`, in order,
/// without trailing whitespace.
pub open spec fn magnet_lines(text: Seq<char>) -> Seq<Seq<char>> {
    link_lines(lines(text))
}

proof fn lemma_link_lines_cons(first: Seq<char>, rest: Seq<Seq<char>>)
    ensures
        link_lines(seq![first] + rest) == (if is_link_line(first) {
            seq![trim_end(first)]
        } else {
            Seq::<Seq<char>>::empty()
        }) + link_lines(rest),
{
    let ls = seq![first] + rest;
    assert(ls[0] == first);
    assert(ls.drop_first() =~= rest);
}

fn is_link(line: &[char]) -> (b: bool)
    ensures
        b == is_link_line(line@),
{
    let magnet = str_chars("magnet:");
    let https = str_chars("https://");
    let http = str_chars("http://");
    let ftp = str_chars("ftp://");
    let ftps = str_chars("ftps://");
    chars_start_with(line, &magnet) || chars_start_with(line, &https) || chars_start_with(
        line,
        &http,
    ) || chars_start_with(line, &ftp) || chars_start_with(line, &ftps)
}

/// The magnet links listed in the contents of a text file, one per line.
pub fn magnet_list_from_text(text: &str) -> (list: Vec<String>)
    ensures
        list.deep_view() == magnet_lines(text@),
{
    let chars = str_chars(text);
    let len = chars.len();
    let mut newline: Vec<char> = Vec::new();
    newline.push('\n');
    assert(newline@ =~= seq!['\n']);
    let mut list: Vec<String> = Vec::new();
    let mut pos: usize = 0;
    assert(chars@.skip(0) =~= chars@);
    while pos < len
        invariant
            len == chars@.len(),
            chars@ == text@,
            newline@ == seq!['\n'],
            pos <= len,
            magnet_lines(text@) == list.deep_view() + link_lines(lines(chars@.skip(pos as int))),
        decreases len - pos,
    {
        let rest = &chars[pos..len];
        let ghost t = chars@.skip(pos as int);
        assert(rest@ =~= t);
        let found = chars_find(rest, &newline);
        proof {
            lemma_find_from(t, seq!['\n'], 0);
        }
        let (line_end, next) = match found {
            Some(i) => (pos + i, pos + i + 1),
            None => (len, len),
        };
        let mut line = &chars[pos..line_end];
        if found.is_some() && line.len() > 0 && line[line.len() - 1] == '\r' {
            line = &chars[pos..line_end - 1];
        }
        let ghost l = line@;
        proof {
            match found {
                Some(i) => {
                    assert(chars@.subrange(pos as int, line_end as int) =~= t.take(i as int));
                    assert(l == strip_cr(t.take(i as int)));
                    assert(t.skip(i + 1) =~= chars@.skip(next as int));
                    assert(lines(t) == seq![l] + lines(chars@.skip(next as int)));
                },
                None => {
                    assert(chars@.subrange(pos as int, len as int) =~= t);
                    assert(chars@.skip(len as int) =~= Seq::<char>::empty());
                    assert(lines(t) == seq![l] + lines(chars@.skip(next as int)));
                },
            }
            lemma_link_lines_cons(l, lines(chars@.skip(next as int)));
        }
        if is_link(line) {
            let k = trim_end_len(line);
            let s = string_from_chars(&line[0..k]);
            let ghost before = list.deep_view();
            list.push(s);
            proof {
                assert(line@.subrange(0, k as int) =~= line@.take(k as int));
                assert(list.deep_view() =~= before.push(trim_end(l)));
                assert(before + (seq![trim_end(l)] + link_lines(lines(chars@.skip(next as int))))
                    =~= before.push(trim_end(l)) + link_lines(lines(chars@.skip(next as int))));
            }
        } else {
            proof {
                assert(Seq::<Seq<char>>::empty() + link_lines(lines(chars@.skip(next as int)))
                    =~= link_lines(lines(chars@.skip(next as int))));
            }
        }
        pos = next;
    }
    proof {
        assert(chars@.skip(pos as int) =~= Seq::<char>::empty());
        assert(list.deep_view() + Seq::<Seq<char>>::empty() =~= list.deep_view());
    }
    list
}


/// Trimming trailing whitespace keeps a prefix that does not end in
/// whitespace.
proof fn lemma_trim_end_keeps_prefix(s: Seq<char>, p: Seq<char>)
    requires
        starts_with(s, p),
        p.len() > 0,
        !is_unicode_whitespace(p.last()),
    ensures
        starts_with(trim_end(s), p),
    decreases s.len(),
{
    if s.len() > p.len() && is_unicode_whitespace(s.last()) {
        assert(s.drop_last().take(p.len() as int) =~= s.take(p.len() as int));
        lemma_trim_end_keeps_prefix(s.drop_last(), p);
    } else if s.len() == p.len() {
        assert(s.take(p.len() as int) =~= s);
        assert(s.last() == p.last());
    }
}

/// A trimmed string is empty or ends in a character that is not
/// whitespace.
proof fn lemma_trim_end_ends(s: Seq<char>)
    ensures
        trim_end(s).len() > 0 ==> !is_unicode_whitespace(trim_end(s).last()),
    decreases s.len(),
{
    if s.len() > 0 && is_unicode_whitespace(s.last()) {
        lemma_trim_end_ends(s.drop_last());
    }
}

/// Every link that `link_lines` keeps starts with one of the link schemes
/// and does not end in whitespace.
proof fn lemma_link_lines_are_links(ls: Seq<Seq<char>>)
    ensures
        forall|i: int|
            0 <= i < link_lines(ls).len() ==> is_link_line(#[trigger] link_lines(ls)[i]) && (
            link_lines(ls)[i].len() > 0 ==> !is_unicode_whitespace(link_lines(ls)[i].last())),
    decreases ls.len(),
{
    if ls.len() > 0 {
        lemma_link_lines_are_links(ls.drop_first());
        let l = ls[0];
        if is_link_line(l) {
            reveal_strlit("magnet:");
            reveal_strlit("https://");
            reveal_strlit("http://");
            reveal_strlit("ftp://");
            reveal_strlit("ftps://");
            if starts_with(l, "magnet:"@) {
                lemma_trim_end_keeps_prefix(l, "magnet:"@);
            } else if starts_with(l, "https://"@) {
                lemma_trim_end_keeps_prefix(l, "https://"@);
            } else if starts_with(l, "http://"@) {
                lemma_trim_end_keeps_prefix(l, "http://"@);
            } else if starts_with(l, "ftp://"@) {
                lemma_trim_end_keeps_prefix(l, "ftp://"@);
            } else {
                lemma_trim_end_keeps_prefix(l, "ftps://"@);
            }
            lemma_trim_end_ends(l);
            let rest = link_lines(ls.drop_first());
            assert forall|i: int| 0 <= i < link_lines(ls).len() implies is_link_line(
                #[trigger] link_lines(ls)[i],
            ) && (link_lines(ls)[i].len() > 0 ==> !is_unicode_whitespace(
                link_lines(ls)[i].last(),
            )) by {
                if i > 0 {
                    assert(link_lines(ls)[i] == rest[i - 1]);
                }
            }
        } else {
            assert(link_lines(ls) =~= link_lines(ls.drop_first()));
        }
    }
}

/// Every link read out of a text file starts with `magnet:`, `https://`,
/// `http://`, `ftp://` or `ftps://`, and none ends in whitespace.
pub proof fn lemma_magnet_lines_are_links(text: Seq<char>)
    ensures
        forall|i: int|
            0 <= i < magnet_lines(text).len() ==> is_link_line(#[trigger] magnet_lines(text)[i])
                && (magnet_lines(text)[i].len() > 0 ==> !is_unicode_whitespace(
                magnet_lines(text)[i].last(),
            )),
{
    lemma_link_lines_are_links(lines(text));
}

/// The links of a text are exactly its lines that start with a link
/// scheme, in order, each without trailing whitespace: no such line is
/// skipped, and there is one link for each of them.
pub proof fn lemma_magnet_lines_are_the_link_lines(text: Seq<char>)
    ensures
        magnet_lines(text) == lines(text).filter(|l: Seq<char>| is_link_line(l)).map_values(
            |l: Seq<char>| trim_end(l),
        ),
{
    lemma_link_lines_filter(lines(text));
}

proof fn lemma_link_lines_filter(ls: Seq<Seq<char>>)
    ensures
        link_lines(ls) == ls.filter(|l: Seq<char>| is_link_line(l)).map_values(|l: Seq<char>| trim_end(l)),
    decreases ls.len(),
{
    reveal(Seq::filter);
    let p = |l: Seq<char>| is_link_line(l);
    let t = |l: Seq<char>| trim_end(l);
    if ls.len() > 0 {
        let rest = ls.drop_first();
        lemma_link_lines_filter(rest);
        assert(ls =~= seq![ls[0]] + rest);
        Seq::filter_distributes_over_add(seq![ls[0]], rest, p);
        assert(seq![ls[0]].drop_last() =~= Seq::<Seq<char>>::empty());
        assert(Seq::<Seq<char>>::empty().filter(p) =~= Seq::<Seq<char>>::empty());
        if is_link_line(ls[0]) {
            assert(seq![ls[0]].filter(p) =~= seq![ls[0]]);
        } else {
            assert(seq![ls[0]].filter(p) =~= Seq::<Seq<char>>::empty());
        }
        assert(ls.filter(p).map_values(t) =~= seq![ls[0]].filter(p).map_values(t) + rest.filter(p).map_values(t));
        assert(link_lines(ls) =~= ls.filter(p).map_values(t));
    } else {
        assert(ls.filter(p) =~= Seq::<Seq<char>>::empty());
        assert(link_lines(ls) =~= ls.filter(p).map_values(t));
    }
}

} // verus!
