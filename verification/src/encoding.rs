//! Encodings of values: a well-known MIME type, named by a small integer on
//! the wire, optionally followed by a free-form suffix.
use vstd::prelude::*;
use crate::text::{is_prefix, strip_prefix, starts_with};

verus! {

/// The well-known MIME types, in the order of their wire numbers.
#[derive(Clone, Copy, Debug, PartialEq, Eq, Structural)]
pub enum KnownEncoding {
    Empty,
    AppOctetStream,
    AppCustom,
    TextPlain,
    AppProperties,
    AppJson,
    AppSql,
    AppInteger,
    AppFloat,
    AppXml,
    AppXhtmlXml,
    AppXWwwFormUrlencoded,
    TextJson,
    TextHtml,
    TextXml,
    TextCss,
    TextCsv,
    TextJavascript,
    ImageJpeg,
    ImagePng,
    ImageGif,
}

/// How many well-known encodings there are; their wire numbers are `0..KNOWN_COUNT`.
pub const KNOWN_COUNT: u8 = 21;

/// The wire number of a well-known encoding.
pub open spec fn code_of(k: KnownEncoding) -> u8 {
    match k {
        KnownEncoding::Empty => 0,
        KnownEncoding::AppOctetStream => 1,
        KnownEncoding::AppCustom => 2,
        KnownEncoding::TextPlain => 3,
        KnownEncoding::AppProperties => 4,
        KnownEncoding::AppJson => 5,
        KnownEncoding::AppSql => 6,
        KnownEncoding::AppInteger => 7,
        KnownEncoding::AppFloat => 8,
        KnownEncoding::AppXml => 9,
        KnownEncoding::AppXhtmlXml => 10,
        KnownEncoding::AppXWwwFormUrlencoded => 11,
        KnownEncoding::TextJson => 12,
        KnownEncoding::TextHtml => 13,
        KnownEncoding::TextXml => 14,
        KnownEncoding::TextCss => 15,
        KnownEncoding::TextCsv => 16,
        KnownEncoding::TextJavascript => 17,
        KnownEncoding::ImageJpeg => 18,
        KnownEncoding::ImagePng => 19,
        KnownEncoding::ImageGif => 20,
    }
}

/// The well-known encoding with wire number `c` (meaningful for `c < KNOWN_COUNT`).
pub open spec fn known_of(c: int) -> KnownEncoding {
    if c == 1 { KnownEncoding::AppOctetStream }
    else if c == 2 { KnownEncoding::AppCustom }
    else if c == 3 { KnownEncoding::TextPlain }
    else if c == 4 { KnownEncoding::AppProperties }
    else if c == 5 { KnownEncoding::AppJson }
    else if c == 6 { KnownEncoding::AppSql }
    else if c == 7 { KnownEncoding::AppInteger }
    else if c == 8 { KnownEncoding::AppFloat }
    else if c == 9 { KnownEncoding::AppXml }
    else if c == 10 { KnownEncoding::AppXhtmlXml }
    else if c == 11 { KnownEncoding::AppXWwwFormUrlencoded }
    else if c == 12 { KnownEncoding::TextJson }
    else if c == 13 { KnownEncoding::TextHtml }
    else if c == 14 { KnownEncoding::TextXml }
    else if c == 15 { KnownEncoding::TextCss }
    else if c == 16 { KnownEncoding::TextCsv }
    else if c == 17 { KnownEncoding::TextJavascript }
    else if c == 18 { KnownEncoding::ImageJpeg }
    else if c == 19 { KnownEncoding::ImagePng }
    else if c == 20 { KnownEncoding::ImageGif }
    else { KnownEncoding::Empty }
}

/// The MIME text of a well-known encoding.
pub open spec fn mime(k: KnownEncoding) -> Seq<char> {
    match k {
        KnownEncoding::Empty => ""@,
        KnownEncoding::AppOctetStream => "application/octet-stream"@,
        KnownEncoding::AppCustom => "application/custom"@,
        KnownEncoding::TextPlain => "text/plain"@,
        KnownEncoding::AppProperties => "application/properties"@,
        KnownEncoding::AppJson => "application/json"@,
        KnownEncoding::AppSql => "application/sql"@,
        KnownEncoding::AppInteger => "application/integer"@,
        KnownEncoding::AppFloat => "application/float"@,
        KnownEncoding::AppXml => "application/xml"@,
        KnownEncoding::AppXhtmlXml => "application/xhtml+xml"@,
        KnownEncoding::AppXWwwFormUrlencoded => "application/x-www-form-urlencoded"@,
        KnownEncoding::TextJson => "text/json"@,
        KnownEncoding::TextHtml => "text/html"@,
        KnownEncoding::TextXml => "text/xml"@,
        KnownEncoding::TextCss => "text/css"@,
        KnownEncoding::TextCsv => "text/csv"@,
        KnownEncoding::TextJavascript => "text/javascript"@,
        KnownEncoding::ImageJpeg => "image/jpeg"@,
        KnownEncoding::ImagePng => "image/png"@,
        KnownEncoding::ImageGif => "image/gif"@,
    }
}

impl KnownEncoding {
    /// The MIME text of this encoding (`AsRef<str>`).
    pub fn as_str(&self) -> (r: &'static str)
        ensures
            r@ == mime(*self),
    {
        match self {
            KnownEncoding::Empty => "",
            KnownEncoding::AppOctetStream => "application/octet-stream",
            KnownEncoding::AppCustom => "application/custom",
            KnownEncoding::TextPlain => "text/plain",
            KnownEncoding::AppProperties => "application/properties",
            KnownEncoding::AppJson => "application/json",
            KnownEncoding::AppSql => "application/sql",
            KnownEncoding::AppInteger => "application/integer",
            KnownEncoding::AppFloat => "application/float",
            KnownEncoding::AppXml => "application/xml",
            KnownEncoding::AppXhtmlXml => "application/xhtml+xml",
            KnownEncoding::AppXWwwFormUrlencoded => "application/x-www-form-urlencoded",
            KnownEncoding::TextJson => "text/json",
            KnownEncoding::TextHtml => "text/html",
            KnownEncoding::TextXml => "text/xml",
            KnownEncoding::TextCss => "text/css",
            KnownEncoding::TextCsv => "text/csv",
            KnownEncoding::TextJavascript => "text/javascript",
            KnownEncoding::ImageJpeg => "image/jpeg",
            KnownEncoding::ImagePng => "image/png",
            KnownEncoding::ImageGif => "image/gif",
        }
    }

    /// The wire number of this encoding.
    pub fn to_u8(self) -> (r: u8)
        ensures
            r == code_of(self),
            r < KNOWN_COUNT,
    {
        match self {
            KnownEncoding::Empty => 0,
            KnownEncoding::AppOctetStream => 1,
            KnownEncoding::AppCustom => 2,
            KnownEncoding::TextPlain => 3,
            KnownEncoding::AppProperties => 4,
            KnownEncoding::AppJson => 5,
            KnownEncoding::AppSql => 6,
            KnownEncoding::AppInteger => 7,
            KnownEncoding::AppFloat => 8,
            KnownEncoding::AppXml => 9,
            KnownEncoding::AppXhtmlXml => 10,
            KnownEncoding::AppXWwwFormUrlencoded => 11,
            KnownEncoding::TextJson => 12,
            KnownEncoding::TextHtml => 13,
            KnownEncoding::TextXml => 14,
            KnownEncoding::TextCss => 15,
            KnownEncoding::TextCsv => 16,
            KnownEncoding::TextJavascript => 17,
            KnownEncoding::ImageJpeg => 18,
            KnownEncoding::ImagePng => 19,
            KnownEncoding::ImageGif => 20,
        }
    }

    /// The well-known encoding with wire number `value`; `Err` when the
    /// number names none.
    pub fn try_from_u8(value: u8) -> (r: Result<KnownEncoding, ()>)
        ensures
            value < KNOWN_COUNT ==> r == Ok::<KnownEncoding, ()>(known_of(value as int)),
            value >= KNOWN_COUNT ==> r is Err,
    {
        if value == 0 { Ok(KnownEncoding::Empty) }
        else if value == 1 { Ok(KnownEncoding::AppOctetStream) }
        else if value == 2 { Ok(KnownEncoding::AppCustom) }
        else if value == 3 { Ok(KnownEncoding::TextPlain) }
        else if value == 4 { Ok(KnownEncoding::AppProperties) }
        else if value == 5 { Ok(KnownEncoding::AppJson) }
        else if value == 6 { Ok(KnownEncoding::AppSql) }
        else if value == 7 { Ok(KnownEncoding::AppInteger) }
        else if value == 8 { Ok(KnownEncoding::AppFloat) }
        else if value == 9 { Ok(KnownEncoding::AppXml) }
        else if value == 10 { Ok(KnownEncoding::AppXhtmlXml) }
        else if value == 11 { Ok(KnownEncoding::AppXWwwFormUrlencoded) }
        else if value == 12 { Ok(KnownEncoding::TextJson) }
        else if value == 13 { Ok(KnownEncoding::TextHtml) }
        else if value == 14 { Ok(KnownEncoding::TextXml) }
        else if value == 15 { Ok(KnownEncoding::TextCss) }
        else if value == 16 { Ok(KnownEncoding::TextCsv) }
        else if value == 17 { Ok(KnownEncoding::TextJavascript) }
        else if value == 18 { Ok(KnownEncoding::ImageJpeg) }
        else if value == 19 { Ok(KnownEncoding::ImagePng) }
        else if value == 20 { Ok(KnownEncoding::ImageGif) }
        else { Err(()) }
    }

    /// The well-known encoding with the 64-bit wire number `value`; `Err`
    /// when the number names none.
    pub fn try_from_zint(value: u64) -> (r: Result<KnownEncoding, ()>)
        ensures
            value < KNOWN_COUNT ==> r == Ok::<KnownEncoding, ()>(known_of(value as int)),
            value >= KNOWN_COUNT ==> r is Err,
    {
        if value < 21 {
            Self::try_from_u8(value as u8)
        } else {
            Err(())
        }
    }
}


/// Which family a MIME text belongs to: `application/`, `text/` or `image/`.
spec fn family(k: KnownEncoding) -> int {
    let c = code_of(k);
    if c == 3 || (12 <= c && c <= 17) { 1 } else if c >= 18 { 2 } else { 0 }
}

/// An index at which the MIME texts of two distinct well-known encodings differ.
spec fn distinguishing_index(a: KnownEncoding, b: KnownEncoding) -> int {
    let (ca, cb) = (code_of(a), code_of(b));
    if family(a) != family(b) {
        0
    } else if family(a) == 0 {
        if 9 <= ca && ca <= 11 && 9 <= cb && cb <= 11 { 13 } else { 12 }
    } else if family(a) == 1 {
        if (ca == 12 || ca == 17) && (cb == 12 || cb == 17) {
            6
        } else if 15 <= ca && ca <= 16 && 15 <= cb && cb <= 16 {
            7
        } else {
            5
        }
    } else {
        6
    }
}

/// No MIME text of a well-known encoding other than `Empty` is a prefix of
/// another one.
pub proof fn lemma_mimes_prefix_free(a: KnownEncoding, b: KnownEncoding)
    requires
        a != b,
        a != KnownEncoding::Empty,
        b != KnownEncoding::Empty,
    ensures
        !is_prefix(mime(a), mime(b)),
{
    reveal_strlit("application/octet-stream");
    reveal_strlit("application/custom");
    reveal_strlit("text/plain");
    reveal_strlit("application/properties");
    reveal_strlit("application/json");
    reveal_strlit("application/sql");
    reveal_strlit("application/integer");
    reveal_strlit("application/float");
    reveal_strlit("application/xml");
    reveal_strlit("application/xhtml+xml");
    reveal_strlit("application/x-www-form-urlencoded");
    reveal_strlit("text/json");
    reveal_strlit("text/html");
    reveal_strlit("text/xml");
    reveal_strlit("text/css");
    reveal_strlit("text/csv");
    reveal_strlit("text/javascript");
    reveal_strlit("image/jpeg");
    reveal_strlit("image/png");
    reveal_strlit("image/gif");
    let d = distinguishing_index(a, b);
    assert(mime(a)[d] != mime(b)[d]);
}


impl From<KnownEncoding> for u8 {
    /// The wire number of a well-known encoding.
    fn from(val: KnownEncoding) -> (r: u8) {
        val.to_u8()
    }
}

impl vstd::std_specs::convert::FromSpecImpl<KnownEncoding> for u8 {
    open spec fn obeys_from_spec() -> bool {
        true
    }

    open spec fn from_spec(v: KnownEncoding) -> u8 {
        code_of(v)
    }
}

impl From<KnownEncoding> for usize {
    /// The wire number of a well-known encoding, as an index.
    fn from(val: KnownEncoding) -> (r: usize) {
        val.to_u8() as usize
    }
}

impl vstd::std_specs::convert::FromSpecImpl<KnownEncoding> for usize {
    open spec fn obeys_from_spec() -> bool {
        true
    }

    open spec fn from_spec(v: KnownEncoding) -> usize {
        code_of(v) as usize
    }
}

/// The abstract value of an [`Encoding`].
pub enum EncodingView {
    Exact(KnownEncoding),
    WithSuffix(KnownEncoding, Seq<char>),
}

impl EncodingView {
    pub open spec fn prefix(self) -> KnownEncoding {
        match self {
            EncodingView::Exact(k) => k,
            EncodingView::WithSuffix(k, _) => k,
        }
    }

    pub open spec fn suffix(self) -> Seq<char> {
        match self {
            EncodingView::Exact(_) => Seq::empty(),
            EncodingView::WithSuffix(_, s) => s,
        }
    }

    /// The string representation: the MIME text followed by the suffix.
    pub open spec fn text(self) -> Seq<char> {
        mime(self.prefix()) + self.suffix()
    }

    /// The same encoding with an empty suffix written as `Exact`.
    pub open spec fn normalized(self) -> EncodingView {
        if self.suffix().len() == 0 {
            EncodingView::Exact(self.prefix())
        } else {
            EncodingView::WithSuffix(self.prefix(), self.suffix())
        }
    }
}

/// The encoding of a value: a well-known MIME type, possibly followed by a
/// suffix (the string representation is the MIME text, then the suffix).
#[derive(Debug, PartialEq, Eq)]
pub enum Encoding {
    Exact(KnownEncoding),
    WithSuffix(KnownEncoding, String),
}

impl View for Encoding {
    type V = EncodingView;

    open spec fn view(&self) -> EncodingView {
        match self {
            Encoding::Exact(k) => EncodingView::Exact(*k),
            Encoding::WithSuffix(k, s) => EncodingView::WithSuffix(*k, s@),
        }
    }
}

/// The first wire number, from `from` on, whose MIME text starts `s`
/// (`KNOWN_COUNT` when none does).
pub open spec fn first_mime_match(s: Seq<char>, from: int) -> int
    decreases KNOWN_COUNT - from,
{
    if from >= KNOWN_COUNT {
        KNOWN_COUNT as int
    } else if is_prefix(mime(known_of(from)), s) {
        from
    } else {
        first_mime_match(s, from + 1)
    }
}

/// The encoding that a string representation denotes: the first well-known
/// MIME text (after `Empty`) that starts the string gives the prefix, the
/// rest is the suffix; when none matches, the prefix is `Empty`.
pub open spec fn parse_encoding(s: Seq<char>) -> EncodingView {
    let i = first_mime_match(s, 1);
    if i < KNOWN_COUNT {
        let rest = s.skip(mime(known_of(i)).len() as int);
        if rest.len() == 0 {
            EncodingView::Exact(known_of(i))
        } else {
            EncodingView::WithSuffix(known_of(i), rest)
        }
    } else if s.len() == 0 {
        EncodingView::Exact(KnownEncoding::Empty)
    } else {
        EncodingView::WithSuffix(KnownEncoding::Empty, s)
    }
}

impl Encoding {
    /// The encoding with wire number `prefix` and the given suffix; `None`
    /// when `prefix` names no well-known encoding.
    pub fn new(prefix: u64, suffix: &str) -> (r: Option<Encoding>)
        ensures
            prefix >= KNOWN_COUNT ==> r is None,
            prefix < KNOWN_COUNT ==> r is Some,
            r matches Some(e) ==> e@ == (if suffix@.len() == 0 {
                EncodingView::Exact(known_of(prefix as int))
            } else {
                EncodingView::WithSuffix(known_of(prefix as int), suffix@)
            }),
    {
        let k = match KnownEncoding::try_from_zint(prefix) {
            Ok(k) => k,
            Err(_) => { return None; },
        };
        if suffix.is_empty() {
            Some(Encoding::Exact(k))
        } else {
            Some(Encoding::WithSuffix(k, suffix.to_owned()))
        }
    }

    /// Sets the suffix of this encoding: the result has the same well-known
    /// prefix and `suffix` as its suffix.
    pub fn with_suffix(self, suffix: &str) -> (r: Encoding)
        ensures
            r@ == EncodingView::WithSuffix(self@.prefix(), suffix@),
    {
        match self {
            Encoding::Exact(e) => Encoding::WithSuffix(e, suffix.to_owned()),
            Encoding::WithSuffix(e, _) => Encoding::WithSuffix(e, suffix.to_owned()),
        }
    }

    /// Converts a reference to this encoding into `T` through `T`'s
    /// conversion from `&Encoding`.
    pub fn as_ref<'a, T>(&'a self) -> (r: T)
        where T: From<&'a Encoding>,
        ensures
            call_ensures(T::from, (self,), r),
    {
        T::from(self)
    }

    /// Returns `true` if the string representation of this encoding starts
    /// with the string representation of `with`.
    pub fn starts_with(&self, with: &Encoding) -> (r: bool)
        ensures
            r == is_prefix(with@.text(), self@.text()),
    {
        let text = self.to_string();
        let start = with.to_string();
        starts_with(text.as_str(), start.as_str())
    }

    /// The well-known part of this encoding.
    pub fn prefix(&self) -> (r: &KnownEncoding)
        ensures
            *r == self@.prefix(),
    {
        match self {
            Encoding::Exact(e) => e,
            Encoding::WithSuffix(e, _) => e,
        }
    }

    /// The suffix of this encoding (empty for an exact encoding).
    pub fn suffix(&self) -> (r: &str)
        ensures
            r@ == self@.suffix(),
    {
        match self {
            Encoding::Exact(_) => {
                proof {
                    reveal_strlit("");
                }
                ""
            },
            Encoding::WithSuffix(_, s) => s.as_str(),
        }
    }

    /// The string representation: the MIME text, then the suffix.
    pub fn to_string(&self) -> (r: String)
        ensures
            r@ == self@.text(),
    {
        let mut r = String::from_str(self.prefix().as_str());
        r.append(self.suffix());
        r
    }

    /// The encoding that a string representation denotes.
    pub fn from_str(s: &str) -> (r: Encoding)
        ensures
            r@ == parse_encoding(s@),
    {
        let mut i: u8 = 1;
        while i < KNOWN_COUNT
            invariant
                1 <= i <= KNOWN_COUNT,
                first_mime_match(s@, 1) == first_mime_match(s@, i as int),
            decreases KNOWN_COUNT - i,
        {
            let k = match KnownEncoding::try_from_u8(i) {
                Ok(k) => k,
                Err(_) => { return Encoding::Exact(KnownEncoding::Empty); },
            };
            if let Some(suffix) = strip_prefix(s, k.as_str()) {
                if suffix.is_empty() {
                    return Encoding::Exact(k);
                } else {
                    return Encoding::WithSuffix(k, suffix.to_owned());
                }
            }
            i = i + 1;
        }
        if s.is_empty() {
            Encoding::Exact(KnownEncoding::Empty)
        } else {
            Encoding::WithSuffix(KnownEncoding::Empty, s.to_owned())
        }
    }

    /// The encoding that an owned string representation denotes.
    pub fn from_string(s: String) -> (r: Encoding)
        ensures
            r@ == parse_encoding(s@),
    {
        Self::from_str(s.as_str())
    }
}

impl Encoding {
    /// The empty encoding.
    pub fn empty() -> (r: Encoding)
        ensures
            r@ == EncodingView::Exact(KnownEncoding::Empty),
    {
        Encoding::Exact(KnownEncoding::Empty)
    }

    /// The exact encoding `application/octet-stream`.
    pub fn app_octet_stream() -> (r: Encoding)
        ensures
            r@ == EncodingView::Exact(KnownEncoding::AppOctetStream),
    {
        Encoding::Exact(KnownEncoding::AppOctetStream)
    }

    /// The exact encoding `application/custom`.
    pub fn app_custom() -> (r: Encoding)
        ensures
            r@ == EncodingView::Exact(KnownEncoding::AppCustom),
    {
        Encoding::Exact(KnownEncoding::AppCustom)
    }

    /// The exact encoding `text/plain`.
    pub fn text_plain() -> (r: Encoding)
        ensures
            r@ == EncodingView::Exact(KnownEncoding::TextPlain),
    {
        Encoding::Exact(KnownEncoding::TextPlain)
    }

    /// The encoding of strings: `text/plain`.
    pub fn string() -> (r: Encoding)
        ensures
            r@ == EncodingView::Exact(KnownEncoding::TextPlain),
    {
        Encoding::Exact(KnownEncoding::TextPlain)
    }

    /// The exact encoding `application/properties`.
    pub fn app_properties() -> (r: Encoding)
        ensures
            r@ == EncodingView::Exact(KnownEncoding::AppProperties),
    {
        Encoding::Exact(KnownEncoding::AppProperties)
    }

    /// The exact encoding `application/json`.
    pub fn app_json() -> (r: Encoding)
        ensures
            r@ == EncodingView::Exact(KnownEncoding::AppJson),
    {
        Encoding::Exact(KnownEncoding::AppJson)
    }

    /// The exact encoding `application/sql`.
    pub fn app_sql() -> (r: Encoding)
        ensures
            r@ == EncodingView::Exact(KnownEncoding::AppSql),
    {
        Encoding::Exact(KnownEncoding::AppSql)
    }

    /// The exact encoding `application/integer`.
    pub fn app_integer() -> (r: Encoding)
        ensures
            r@ == EncodingView::Exact(KnownEncoding::AppInteger),
    {
        Encoding::Exact(KnownEncoding::AppInteger)
    }

    /// The exact encoding `application/float`.
    pub fn app_float() -> (r: Encoding)
        ensures
            r@ == EncodingView::Exact(KnownEncoding::AppFloat),
    {
        Encoding::Exact(KnownEncoding::AppFloat)
    }

    /// The exact encoding `application/xml`.
    pub fn app_xml() -> (r: Encoding)
        ensures
            r@ == EncodingView::Exact(KnownEncoding::AppXml),
    {
        Encoding::Exact(KnownEncoding::AppXml)
    }

    /// The exact encoding `application/xhtml+xml`.
    pub fn app_xhtml_xml() -> (r: Encoding)
        ensures
            r@ == EncodingView::Exact(KnownEncoding::AppXhtmlXml),
    {
        Encoding::Exact(KnownEncoding::AppXhtmlXml)
    }

    /// The exact encoding `application/x-www-form-urlencoded`.
    pub fn app_x_www_form_urlencoded() -> (r: Encoding)
        ensures
            r@ == EncodingView::Exact(KnownEncoding::AppXWwwFormUrlencoded),
    {
        Encoding::Exact(KnownEncoding::AppXWwwFormUrlencoded)
    }

    /// The exact encoding `text/json`.
    pub fn text_json() -> (r: Encoding)
        ensures
            r@ == EncodingView::Exact(KnownEncoding::TextJson),
    {
        Encoding::Exact(KnownEncoding::TextJson)
    }

    /// The exact encoding `text/html`.
    pub fn text_html() -> (r: Encoding)
        ensures
            r@ == EncodingView::Exact(KnownEncoding::TextHtml),
    {
        Encoding::Exact(KnownEncoding::TextHtml)
    }

    /// The exact encoding `text/xml`.
    pub fn text_xml() -> (r: Encoding)
        ensures
            r@ == EncodingView::Exact(KnownEncoding::TextXml),
    {
        Encoding::Exact(KnownEncoding::TextXml)
    }

    /// The exact encoding `text/css`.
    pub fn text_css() -> (r: Encoding)
        ensures
            r@ == EncodingView::Exact(KnownEncoding::TextCss),
    {
        Encoding::Exact(KnownEncoding::TextCss)
    }

    /// The exact encoding `text/csv`.
    pub fn text_csv() -> (r: Encoding)
        ensures
            r@ == EncodingView::Exact(KnownEncoding::TextCsv),
    {
        Encoding::Exact(KnownEncoding::TextCsv)
    }

    /// The exact encoding `text/javascript`.
    pub fn text_javascript() -> (r: Encoding)
        ensures
            r@ == EncodingView::Exact(KnownEncoding::TextJavascript),
    {
        Encoding::Exact(KnownEncoding::TextJavascript)
    }

    /// The exact encoding `image/jpeg`.
    pub fn img_jpg() -> (r: Encoding)
        ensures
            r@ == EncodingView::Exact(KnownEncoding::ImageJpeg),
    {
        Encoding::Exact(KnownEncoding::ImageJpeg)
    }

    /// The exact encoding `image/png`.
    pub fn img_png() -> (r: Encoding)
        ensures
            r@ == EncodingView::Exact(KnownEncoding::ImagePng),
    {
        Encoding::Exact(KnownEncoding::ImagePng)
    }

    /// The exact encoding `image/gif`.
    pub fn img_gif() -> (r: Encoding)
        ensures
            r@ == EncodingView::Exact(KnownEncoding::ImageGif),
    {
        Encoding::Exact(KnownEncoding::ImageGif)
    }
}

impl Clone for Encoding {
    fn clone(&self) -> (r: Encoding)
        ensures
            r@ == self@,
    {
        match self {
            Encoding::Exact(k) => Encoding::Exact(*k),
            Encoding::WithSuffix(k, s) => Encoding::WithSuffix(*k, s.clone()),
        }
    }
}

impl Default for Encoding {
    /// The empty encoding.
    fn default() -> (r: Encoding)
        ensures
            r@ == EncodingView::Exact(KnownEncoding::Empty),
    {
        Encoding::Exact(KnownEncoding::Empty)
    }
}

/// Wire numbers and well-known encodings correspond one to one.
pub proof fn lemma_wire_number_roundtrip(k: KnownEncoding, c: int)
    ensures
        known_of(code_of(k) as int) == k,
        0 <= c < KNOWN_COUNT ==> code_of(known_of(c)) == c,
{
}

/// Setting the suffix of an encoding gives the MIME text of its well-known
/// prefix followed by the new suffix as string representation.
pub proof fn lemma_with_suffix_text(e: EncodingView, s: Seq<char>)
    ensures
        EncodingView::WithSuffix(e.prefix(), s).text() == mime(e.prefix()) + s,
        EncodingView::WithSuffix(e.prefix(), s).text() == EncodingView::Exact(e.prefix()).text() + s,
{
    assert(EncodingView::Exact(e.prefix()).text() =~= mime(e.prefix()));
}

/// When `a` and `b` have the same well-known prefix and the suffix of `b`
/// starts the suffix of `a`, the string representation of `b` starts that
/// of `a`.
pub proof fn lemma_starts_with_text(a: EncodingView, b: EncodingView)
    requires
        a.prefix() == b.prefix(),
        is_prefix(b.suffix(), a.suffix()),
    ensures
        is_prefix(b.text(), a.text()),
{
    let m = mime(a.prefix());
    assert((m + a.suffix()).take((m + b.suffix()).len() as int) =~= m + b.suffix());
}

/// Between encodings whose well-known prefixes are not `Empty`, one string
/// representation starts another exactly when the well-known prefixes are
/// the same and the suffix of the one starts the suffix of the other.
pub proof fn lemma_starts_with_parts(a: EncodingView, b: EncodingView)
    requires
        a.prefix() != KnownEncoding::Empty,
        b.prefix() != KnownEncoding::Empty,
    ensures
        is_prefix(b.text(), a.text()) == (a.prefix() == b.prefix() && is_prefix(b.suffix(), a.suffix())),
{
    let (pa, pb) = (a.prefix(), b.prefix());
    if a.prefix() == b.prefix() && is_prefix(b.suffix(), a.suffix()) {
        lemma_starts_with_text(a, b);
    }
    if is_prefix(b.text(), a.text()) {
        assert(b.text().take(mime(pb).len() as int) =~= mime(pb));
        assert(a.text().take(mime(pb).len() as int) =~= mime(pb));
        lemma_prefix_of_concat(mime(pb), mime(pa), a.suffix());
        if pa != pb {
            if mime(pb).len() <= mime(pa).len() {
                lemma_mimes_prefix_free(pb, pa);
            } else {
                lemma_mimes_prefix_free(pa, pb);
            }
        }
        let m = mime(pa);
        assert(a.suffix().take(b.suffix().len() as int) =~= a.text().take(b.text().len() as int).skip(m.len() as int));
        assert(b.suffix() =~= b.text().skip(m.len() as int));
    }
}

/// A prefix of `x + y` that is a prefix of neither `x` nor longer than `x`
/// cannot exist.
proof fn lemma_prefix_of_concat(p: Seq<char>, x: Seq<char>, y: Seq<char>)
    requires
        is_prefix(p, x + y),
    ensures
        p.len() <= x.len() ==> is_prefix(p, x),
        p.len() > x.len() ==> is_prefix(x, p),
{
    if p.len() <= x.len() {
        assert(x.take(p.len() as int) =~= (x + y).take(p.len() as int));
    } else {
        assert(p.take(x.len() as int) =~= (x + y).take(x.len() as int));
        assert((x + y).take(x.len() as int) =~= x);
    }
}

/// The search for the first matching MIME text stops at `c` when none
/// matches before it and the one at `c` matches.
proof fn lemma_first_match_at(t: Seq<char>, from: int, c: int)
    requires
        1 <= from <= c < KNOWN_COUNT,
        is_prefix(mime(known_of(c)), t),
        forall|j: int| from <= j < c ==> !is_prefix(#[trigger] mime(known_of(j)), t),
    ensures
        first_mime_match(t, from) == c,
    decreases c - from,
{
    if from < c {
        lemma_first_match_at(t, from + 1, c);
    }
}

/// The string representation of an encoding denotes that encoding again
/// (an empty suffix is read back as an exact encoding), unless its prefix is
/// `Empty` and its suffix starts with a well-known MIME text.
pub proof fn lemma_parse_text_roundtrip(e: EncodingView)
    requires
        e.prefix() != KnownEncoding::Empty || first_mime_match(e.suffix(), 1) == KNOWN_COUNT,
    ensures
        parse_encoding(e.text()) == e.normalized(),
{
    let k = e.prefix();
    let t = e.text();
    if k == KnownEncoding::Empty {
        reveal_strlit("");
        assert(t =~= e.suffix());
    } else {
        let c = code_of(k) as int;
        lemma_wire_number_roundtrip(k, c);
        assert(t.take(mime(k).len() as int) =~= mime(k));
        assert forall|j: int| 1 <= j < c implies !is_prefix(#[trigger] mime(known_of(j)), t) by {
            lemma_wire_number_roundtrip(k, j);
            if is_prefix(mime(known_of(j)), t) {
                lemma_prefix_of_concat(mime(known_of(j)), mime(k), e.suffix());
                if mime(known_of(j)).len() <= mime(k).len() {
                    lemma_mimes_prefix_free(known_of(j), k);
                } else {
                    lemma_mimes_prefix_free(k, known_of(j));
                }
            }
        }
        lemma_first_match_at(t, 1, c);
        assert(t.skip(mime(k).len() as int) =~= e.suffix());
    }
}

/// The search for a matching MIME text gives a wire number from `from` on,
/// or `KNOWN_COUNT`, and it gives `KNOWN_COUNT` only when no MIME text from
/// `from` on starts `s`.
proof fn lemma_first_mime_match_range(s: Seq<char>, from: int)
    requires
        0 <= from <= KNOWN_COUNT,
    ensures
        from <= first_mime_match(s, from) <= KNOWN_COUNT,
        first_mime_match(s, from) < KNOWN_COUNT ==> is_prefix(mime(known_of(first_mime_match(s, from))), s),
        first_mime_match(s, from) == KNOWN_COUNT ==> forall|j: int| from <= j < KNOWN_COUNT ==> !is_prefix(#[trigger] mime(known_of(j)), s),
    decreases KNOWN_COUNT - from,
{
    if from < KNOWN_COUNT {
        lemma_first_mime_match_range(s, from + 1);
    }
}

/// The string representation of the encoding that a string denotes is that
/// string again.
pub proof fn lemma_parse_then_text(s: Seq<char>)
    ensures
        parse_encoding(s).text() == s,
{
    lemma_first_mime_match_range(s, 1);
    let i = first_mime_match(s, 1);
    if i < KNOWN_COUNT {
        let m = mime(known_of(i));
        assert(s.take(m.len() as int) == m);
        assert(m + s.skip(m.len() as int) =~= s);
        if s.skip(m.len() as int).len() == 0 {
            assert(m + Seq::<char>::empty() =~= m);
        }
    } else {
        reveal_strlit("");
        assert(""@ + s =~= s);
        if s.len() == 0 {
            assert(""@ + Seq::<char>::empty() =~= s);
        }
    }
}

/// What a string denotes never has an empty suffix, and has the prefix
/// `Empty` exactly when no well-known MIME text starts the string.
pub proof fn lemma_parse_encoding_shape(s: Seq<char>)
    ensures
        parse_encoding(s) matches EncodingView::WithSuffix(_, x) ==> x.len() > 0,
        (parse_encoding(s).prefix() == KnownEncoding::Empty) == (first_mime_match(s, 1) == KNOWN_COUNT),
{
    lemma_first_mime_match_range(s, 1);
    let i = first_mime_match(s, 1);
    if i < KNOWN_COUNT {
        lemma_wire_number_roundtrip(known_of(i), i);
    }
}

/// The MIME text of every well-known encoding denotes exactly that encoding.
pub proof fn lemma_known_text_parses(k: KnownEncoding)
    ensures
        parse_encoding(mime(k)) == EncodingView::Exact(k),
{
    if k == KnownEncoding::Empty {
        reveal_strlit("application/octet-stream");
        reveal_strlit("application/custom");
        reveal_strlit("text/plain");
        reveal_strlit("application/properties");
        reveal_strlit("application/json");
        reveal_strlit("application/sql");
        reveal_strlit("application/integer");
        reveal_strlit("application/float");
        reveal_strlit("application/xml");
        reveal_strlit("application/xhtml+xml");
        reveal_strlit("application/x-www-form-urlencoded");
        reveal_strlit("text/json");
        reveal_strlit("text/html");
        reveal_strlit("text/xml");
        reveal_strlit("text/css");
        reveal_strlit("text/csv");
        reveal_strlit("text/javascript");
        reveal_strlit("image/jpeg");
        reveal_strlit("image/png");
        reveal_strlit("image/gif");
        reveal_strlit("");
        assert forall|j: int| 1 <= j < KNOWN_COUNT implies !is_prefix(#[trigger] mime(known_of(j)), Seq::<char>::empty()) by {
            assert(mime(known_of(j)).len() > 0);
        }
        lemma_first_match_none(Seq::empty(), 1);
    }
    let e = EncodingView::Exact(k);
    assert(e.suffix() =~= Seq::<char>::empty());
    assert(e.text() =~= mime(k));
    lemma_parse_text_roundtrip(e);
}

/// When no MIME text from `from` on starts `s`, the search finds none.
proof fn lemma_first_match_none(s: Seq<char>, from: int)
    requires
        1 <= from <= KNOWN_COUNT,
        forall|j: int| from <= j < KNOWN_COUNT ==> !is_prefix(#[trigger] mime(known_of(j)), s),
    ensures
        first_mime_match(s, from) == KNOWN_COUNT,
    decreases KNOWN_COUNT - from,
{
    if from < KNOWN_COUNT {
        lemma_first_match_none(s, from + 1);
    }
}

/// The MIME table: the text of the well-known encoding with each wire
/// number, from 0 (the empty text) to 20.
pub proof fn lemma_mime_table()
    ensures
        mime(known_of(0)) == ""@,
        mime(known_of(1)) == "application/octet-stream"@,
        mime(known_of(2)) == "application/custom"@,
        mime(known_of(3)) == "text/plain"@,
        mime(known_of(4)) == "application/properties"@,
        mime(known_of(5)) == "application/json"@,
        mime(known_of(6)) == "application/sql"@,
        mime(known_of(7)) == "application/integer"@,
        mime(known_of(8)) == "application/float"@,
        mime(known_of(9)) == "application/xml"@,
        mime(known_of(10)) == "application/xhtml+xml"@,
        mime(known_of(11)) == "application/x-www-form-urlencoded"@,
        mime(known_of(12)) == "text/json"@,
        mime(known_of(13)) == "text/html"@,
        mime(known_of(14)) == "text/xml"@,
        mime(known_of(15)) == "text/css"@,
        mime(known_of(16)) == "text/csv"@,
        mime(known_of(17)) == "text/javascript"@,
        mime(known_of(18)) == "image/jpeg"@,
        mime(known_of(19)) == "image/png"@,
        mime(known_of(20)) == "image/gif"@,
{
}

} // verus!
