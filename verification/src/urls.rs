//! Addresses of trackers, as the `url` crate reads and writes them.

use vstd::prelude::*;
use vstd::string::*;

verus! {

/// What a url is made of.
#[derive(Debug)]
pub struct ParsedUrl {
    /// The whole url, in its normal form
    pub text: String,
    pub scheme: String,
    pub host: Option<String>,
    /// The port, where it is not the scheme's own
    pub port: Option<u16>,
}

/// What a url is made of.
#[verifier::ext_equal]
pub struct UrlView {
    pub text: Seq<char>,
    pub scheme: Seq<char>,
    pub host: Option<Seq<char>>,
    pub port: Option<u16>,
}

impl View for ParsedUrl {
    type V = UrlView;

    open spec fn view(&self) -> UrlView {
        UrlView {
            text: self.text@,
            scheme: self.scheme@,
            host: crate::text::opt_text(self.host),
            port: self.port,
        }
    }
}

/// What comes of reading a url.
pub open spec fn url_view(r: Result<ParsedUrl, String>) -> Result<UrlView, Seq<char>> {
    match r {
        Ok(u) => Ok(u@),
        Err(e) => Err(e@),
    }
}

/// What comes of a text.
pub open spec fn text_view(r: Result<String, String>) -> Result<Seq<char>, Seq<char>> {
    match r {
        Ok(u) => Ok(u@),
        Err(e) => Err(e@),
    }
}

/// What pairs of texts say.
pub open spec fn pair_views(p: Seq<(String, String)>) -> Seq<(Seq<char>, Seq<char>)> {
    Seq::new(p.len(), |i: int| (p[i].0@, p[i].1@))
}

/// What `Url::parse` makes of a text: the url's parts, or what the error reads like.
pub uninterp spec fn url_of(text: Seq<char>) -> Result<UrlView, Seq<char>>;

/// What `Serializer::extend_pairs` makes of the query of a url: the url with the pairs behind its
/// query, or what the error reads like where the text is no url.
pub uninterp spec fn url_with_pairs(text: Seq<char>, pairs: Seq<(Seq<char>, Seq<char>)>) -> Result<
    Seq<char>,
    Seq<char>,
>;

/// What `form_urlencoded::parse` makes of a query: the pairs of names and values, decoded.
pub uninterp spec fn form_pairs(query: Seq<u8>) -> Seq<(Seq<char>, Seq<char>)>;

/// `url::form_urlencoded::parse`: the pairs of names and values of a query, decoded, in order. A
/// pair takes up to 48 bytes and can stand for two bytes of the query, and a list of pairs grows by
/// doubling, so that a query is left out whose pairs could be more than can be allocated.
#[verifier::external_body]
pub(crate) fn form_parse(query: &[u8]) -> (r: Vec<(String, String)>)
    requires
        96 * query@.len() <= isize::MAX,
    ensures
        pair_views(r@) == form_pairs(query@),
{
    url::form_urlencoded::parse(query).into_owned().collect()
}

/// Texts that can be read as urls. Positions in a url have 32 bits. Most of them are tested as they
/// are counted; two are not: that behind a scheme and its colon, to which two is added, and that
/// behind the host of a `file:` url, where one character comes out as at most 144.
pub open spec fn url_fits(text: Seq<char>) -> bool {
    &&& 200 * text.len() <= isize::MAX
    &&& text.len() < 0xffff_fffc
    &&& 144 * text.len() <= u32::MAX - 16 || (text[0] as int > 0x20 && text[0] != 'f' && text[0]
        != 'F')
}

/// What comes of reading a text as a url.
pub open spec fn url_read(text: Seq<char>) -> Result<UrlView, Seq<char>> {
    if url_fits(text) {
        url_of(text)
    } else {
        Err("URLs more than 4 GB are not supported"@)
    }
}

/// The parts of the url that a text writes, or what the error reads like
pub fn read_url(text: &str) -> (r: Result<ParsedUrl, String>)
    ensures
        url_view(r) == url_read(text@),
{
    let n: usize = text.unicode_len();
    let limit: usize = (isize::MAX as usize) / 200;
    if n > limit || n as u64 >= 0xffff_fffc {
        return Err(String::from_str("URLs more than 4 GB are not supported"));
    }
    if 144 * (n as u64) > 0xffff_ffef {
        let c: char = text.get_char(0);
        if c as u32 <= 0x20 || c == 'f' || c == 'F' {
            return Err(String::from_str("URLs more than 4 GB are not supported"));
        }
    }
    url_parse(text)
}

/// `Url::parse`: the parts of the url that a text writes, or what the error reads like. Texts are
/// left out on which a position in the url could pass 32 bits untested, and such as could come out
/// longer than can be allocated.
#[verifier::external_body]
fn url_parse(text: &str) -> (r: Result<ParsedUrl, String>)
    requires
        url_fits(text@),
    ensures
        url_view(r) == url_of(text@),
{
    match url::Url::parse(text) {
        Ok(u) => Ok(
            ParsedUrl {
                text: u.to_string(),
                scheme: u.scheme().to_string(),
                host: u.host_str().map(|h| h.to_string()),
                port: u.port(),
            },
        ),
        Err(e) => Err(e.to_string()),
    }
}

/// Pairs that take no more than `PAIRS_SIZE` bytes in a query: a character takes up to twelve.
pub open spec fn few_pairs(pairs: Seq<(String, String)>) -> bool {
    &&& pairs.len() <= 0x100
    &&& forall|i: int|
        0 <= i < pairs.len() ==> (#[trigger] pairs[i]).0@.len() <= 0x1_0000 && pairs[i].1@.len()
            <= 0x1_0000
}

/// How many bytes pairs take in a query at most.
pub const PAIRS_SIZE: u32 = 0x1801_0000;

/// Urls that pairs can be put behind: positions in a url have 32 bits, and what is written into
/// grows by doubling.
pub open spec fn room_for_pairs(u: UrlView) -> bool {
    &&& u.text.len() + PAIRS_SIZE <= u32::MAX
    &&& 2 * (u.text.len() + PAIRS_SIZE) <= isize::MAX
}

/// What comes of putting pairs behind the query of a url.
pub open spec fn url_extended(text: Seq<char>, pairs: Seq<(Seq<char>, Seq<char>)>) -> Result<
    Seq<char>,
    Seq<char>,
> {
    match url_read(text) {
        Err(m) => Err(m),
        Ok(u) => if room_for_pairs(u) {
            url_with_pairs(text, pairs)
        } else {
            Err("URLs more than 4 GB are not supported"@)
        },
    }
}

/// A url with pairs behind its query, or what the error reads like
pub fn extend_url(text: &str, pairs: &Vec<(String, String)>) -> (r: Result<String, String>)
    requires
        few_pairs(pairs@),
    ensures
        text_view(r) == url_extended(text@, pair_views(pairs@)),
{
    match read_url(text) {
        Err(m) => Err(m),
        Ok(u) => {
            let n: usize = u.text.as_str().unicode_len();
            let all: u128 = n as u128 + PAIRS_SIZE as u128;
            if all <= u32::MAX as u128 && 2 * all <= isize::MAX as u128 {
                url_extend(text, pairs)
            } else {
                Err(String::from_str("URLs more than 4 GB are not supported"))
            }
        },
    }
}

/// `Serializer::extend_pairs` on the query of a url: the url with the pairs behind its query. The
/// crate counts positions in 32 bits and writes urls in ASCII, so that urls are left out whose
/// length with the pairs could pass that.
#[verifier::external_body]
fn url_extend(text: &str, pairs: &Vec<(String, String)>) -> (r: Result<String, String>)
    requires
        url_fits(text@),
        url_of(text@) matches Ok(u) ==> room_for_pairs(u),
        few_pairs(pairs@),
    ensures
        text_view(r) == url_with_pairs(text@, pair_views(pairs@)),
{
    match url::Url::parse(text) {
        Ok(mut u) => {
            u.query_pairs_mut().extend_pairs(pairs);
            Ok(u.to_string())
        },
        Err(e) => Err(e.to_string()),
    }
}

} // verus!
