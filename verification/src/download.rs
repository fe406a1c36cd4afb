//! Where a downloaded mod goes, and the record of each download.
use vstd::prelude::*;
use crate::error::RustiqueError;
use crate::install::{joined_path, Install, Installed, InstalledView};
use crate::text::str_chars;

verus! {

/// What `url::Url::parse` gives for a text: the URL written back as text,
/// or the text of the parse error.
pub uninterp spec fn url_parse(text: Seq<char>) -> Result<Seq<char>, Seq<char>>;

/// Calls `url::Url::parse`; the URL and the error are turned into text. The
/// result is named `url_parse` of the input; which texts are URLs is left
/// unsaid.
#[verifier::external_body]
fn parse_url(text: &str) -> (r: Result<String, String>)
    ensures
        match r {
            Ok(u) => url_parse(text@) == Ok::<Seq<char>, Seq<char>>(u@),
            Err(e) => url_parse(text@) == Err::<Seq<char>, Seq<char>>(e@),
        },
{
    match url::Url::parse(text) {
        Ok(u) => Ok(u.to_string()),
        Err(e) => Err(e.to_string()),
    }
}

/// The part of a text after its last `=` (all of it when it holds none).
pub open spec fn after_last_eq(s: Seq<char>) -> Seq<char>
    decreases s.len(),
{
    if s.len() == 0 {
        s
    } else if s.last() == '=' {
        Seq::empty()
    } else {
        after_last_eq(s.drop_last()).push(s.last())
    }
}

/// What follows the last `=` holds no `=` and ends the text; when the text
/// holds a `=`, it is what follows one.
pub proof fn lemma_after_last_eq(s: Seq<char>)
    ensures
        after_last_eq(s).len() <= s.len(),
        after_last_eq(s) == s.subrange(s.len() - after_last_eq(s).len(), s.len() as int),
        forall|i: int| 0 <= i < after_last_eq(s).len() ==> #[trigger] after_last_eq(s)[i] != '=',
        after_last_eq(s).len() < s.len() ==> s[s.len() - after_last_eq(s).len() - 1] == '=',
    decreases s.len(),
{
    if s.len() > 0 {
        lemma_after_last_eq(s.drop_last());
        if s.last() != '=' {
            let r = after_last_eq(s.drop_last());
            assert(r.push(s.last()) =~= s.subrange(s.len() - r.len() - 1, s.len() as int));
        } else {
            assert(s.subrange(s.len() as int, s.len() as int) =~= Seq::<char>::empty());
        }
    }
}

/// The text with every space replaced by `_`.
pub open spec fn spaces_to_underscores(s: Seq<char>) -> Seq<char> {
    s.map_values(|c: char| if c == ' ' { '_' } else { c })
}

/// `p` is the file a mod is downloaded to: the file name at the end of its
/// url (after the last `=`) joined to the mod directory, spaces replaced by
/// `_`.
pub open spec fn download_path_fits(mod_dir: Seq<char>, url: Seq<char>, p: Seq<char>) -> bool {
    exists|j: Seq<char>| joined_path(mod_dir, after_last_eq(url), j) && p == #[trigger] spaces_to_underscores(j)
}

fn file_name_of_url(url: &str) -> (r: String)
    ensures
        r@ == after_last_eq(url@),
{
    let chars = str_chars(url);
    let mut start: usize = 0;
    let mut i: usize = 0;
    while i < chars.len()
        invariant
            chars@ == url@,
            start <= i <= chars.len(),
            after_last_eq(url@.take(i as int)) == url@.subrange(start as int, i as int),
        decreases chars.len() - i,
    {
        assert(url@.take(i + 1).drop_last() =~= url@.take(i as int));
        if chars[i] == '=' {
            start = i + 1;
            assert(url@.subrange(start as int, i + 1) =~= Seq::<char>::empty());
        } else {
            assert(url@.subrange(start as int, i + 1) =~= url@.subrange(start as int, i as int).push(
                chars@[i as int],
            ));
        }
        i += 1;
    }
    assert(url@.take(chars.len() as int) =~= url@);
    let mut r = String::new();
    let mut k: usize = start;
    while k < chars.len()
        invariant
            chars@ == url@,
            start <= k <= chars.len(),
            r@ == url@.subrange(start as int, k as int),
        decreases chars.len() - k,
    {
        r.push(chars[k]);
        k += 1;
        assert(r@ =~= url@.subrange(start as int, k as int));
    }
    r
}

fn underscores(s: &str) -> (r: String)
    ensures
        r@ == spaces_to_underscores(s@),
{
    let chars = str_chars(s);
    let mut r = String::new();
    let mut i: usize = 0;
    while i < chars.len()
        invariant
            chars@ == s@,
            i <= chars.len(),
            r@ == spaces_to_underscores(s@.take(i as int)),
        decreases chars.len() - i,
    {
        let c = chars[i];
        r.push(if c == ' ' { '_' } else { c });
        i += 1;
        assert(r@ =~= spaces_to_underscores(s@.take(i as int)));
    }
    assert(s@.take(chars.len() as int) =~= s@);
    r
}

/// Where a mod is downloaded to (see `download_path_fits`) and its url as a
/// parsed URL; an error with the parser's message when the url is not one.
pub fn download_target(mod_dir: &str, download_url: &str) -> (r: Result<(String, String), RustiqueError>)
    ensures
        r is Ok <==> url_parse(download_url@) is Ok,
        r matches Ok(t) ==> url_parse(download_url@) == Ok::<Seq<char>, Seq<char>>(t.0@)
            && download_path_fits(mod_dir@, download_url@, t.1@),
        r matches Err(e) ==> e matches RustiqueError::UrlParseError(m) && url_parse(download_url@)
            == Err::<Seq<char>, Seq<char>>(m@),
{
    let name = file_name_of_url(download_url);
    let joined = crate::install::join_path(mod_dir, name.as_str());
    let path = underscores(joined.as_str());
    match parse_url(download_url) {
        Ok(u) => Ok((u, path)),
        Err(e) => Err(RustiqueError::UrlParseError(e)),
    }
}

/// The record of a download: the request's id, name and version, the file
/// it replaces, and the new file when the download succeeded.
pub open spec fn download_record(req: Install, downloaded: Option<Seq<char>>) -> InstalledView {
    (
        req.mod_id@,
        req.mod_name@,
        downloaded,
        match req.current_file_path {
            Some(p) => Some(p@),
            None => None,
        },
        req.version_to_install@,
        downloaded is Some,
    )
}

/// The record of a download (see `download_record`).
pub fn install_result(request: &Install, downloaded: Option<String>) -> (r: Installed)
    ensures
        r@ == download_record(
            *request,
            match downloaded {
                Some(p) => Some(p@),
                None => None,
            },
        ),
{
    let success = downloaded.is_some();
    Installed {
        mod_id: request.mod_id.clone(),
        mod_name: request.mod_name.clone(),
        installed_file_path: downloaded,
        old_file_path: crate::text::clone_opt_string(&request.current_file_path),
        install_version: request.version_to_install.clone(),
        success,
    }
}


/// A download path holds no space.
pub proof fn lemma_download_path_no_spaces(mod_dir: Seq<char>, url: Seq<char>, p: Seq<char>)
    requires
        download_path_fits(mod_dir, url, p),
    ensures
        forall|i: int| 0 <= i < p.len() ==> #[trigger] p[i] != ' ',
{
}

} // verus!
