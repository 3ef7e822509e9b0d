//! The image content types the object store accepts, and how they read and
//! print on the wire.

use vstd::prelude::*;

verus! {

/// An accepted image MIME type.
#[derive(Clone, Copy, Debug, PartialEq, Eq, Structural, Hash)]
pub enum ImageContentType {
    Png,
    Jpg,
    Jpeg,
    Gif,
    Webp,
    Svg,
}

/// A submitted content type that is not an accepted image type.
#[derive(Clone, Copy, Debug, PartialEq, Eq, Structural, Hash)]
pub struct UnsupportedContentType;

/// An ASCII upper-case letter folded to lower case; all else unchanged.
pub open spec fn lower_byte(b: u8) -> u8 {
    if 65 <= b <= 90 {
        (b + 32) as u8
    } else {
        b
    }
}

/// ASCII-lower-cased bytes.
pub open spec fn lower_bytes(s: Seq<u8>) -> Seq<u8> {
    s.map_values(|b: u8| lower_byte(b))
}

/// The MIME string of an accepted image type.
pub open spec fn mime_of(t: ImageContentType) -> Seq<u8> {
    match t {
        ImageContentType::Png => seq![105u8, 109u8, 97u8, 103u8, 101u8, 47u8, 112u8, 110u8, 103u8],
        ImageContentType::Jpg => seq![105u8, 109u8, 97u8, 103u8, 101u8, 47u8, 106u8, 112u8, 103u8],
        ImageContentType::Jpeg => seq![105u8, 109u8, 97u8, 103u8, 101u8, 47u8, 106u8, 112u8, 101u8, 103u8],
        ImageContentType::Gif => seq![105u8, 109u8, 97u8, 103u8, 101u8, 47u8, 103u8, 105u8, 102u8],
        ImageContentType::Webp => seq![105u8, 109u8, 97u8, 103u8, 101u8, 47u8, 119u8, 101u8, 98u8, 112u8],
        ImageContentType::Svg => seq![105u8, 109u8, 97u8, 103u8, 101u8, 47u8, 115u8, 118u8, 103u8, 43u8, 120u8, 109u8, 108u8],
    }
}

/// The accepted image type bearing this (already lower-cased) MIME string.
pub open spec fn content_type_of(m: Seq<u8>) -> Option<ImageContentType> {
    if m == mime_of(ImageContentType::Png) {
        Some(ImageContentType::Png)
    } else if m == mime_of(ImageContentType::Jpg) {
        Some(ImageContentType::Jpg)
    } else if m == mime_of(ImageContentType::Jpeg) {
        Some(ImageContentType::Jpeg)
    } else if m == mime_of(ImageContentType::Gif) {
        Some(ImageContentType::Gif)
    } else if m == mime_of(ImageContentType::Webp) {
        Some(ImageContentType::Webp)
    } else if m == mime_of(ImageContentType::Svg) {
        Some(ImageContentType::Svg)
    } else {
        None
    }
}

impl ImageContentType {
    /// The MIME string of this type, as bytes.
    pub fn mime(&self) -> (v: Vec<u8>)
        ensures
            v@ == mime_of(*self),
    {
        let mut v: Vec<u8> = Vec::new();
        match self {
        ImageContentType::Png => {
            v.push(105); v.push(109); v.push(97); v.push(103); v.push(101); v.push(47); v.push(112); v.push(110); v.push(103);
        },
        ImageContentType::Jpg => {
            v.push(105); v.push(109); v.push(97); v.push(103); v.push(101); v.push(47); v.push(106); v.push(112); v.push(103);
        },
        ImageContentType::Jpeg => {
            v.push(105); v.push(109); v.push(97); v.push(103); v.push(101); v.push(47); v.push(106); v.push(112); v.push(101); v.push(103);
        },
        ImageContentType::Gif => {
            v.push(105); v.push(109); v.push(97); v.push(103); v.push(101); v.push(47); v.push(103); v.push(105); v.push(102);
        },
        ImageContentType::Webp => {
            v.push(105); v.push(109); v.push(97); v.push(103); v.push(101); v.push(47); v.push(119); v.push(101); v.push(98); v.push(112);
        },
        ImageContentType::Svg => {
            v.push(105); v.push(109); v.push(97); v.push(103); v.push(101); v.push(47); v.push(115); v.push(118); v.push(103); v.push(43); v.push(120); v.push(109); v.push(108);
        },
        }
        proof {
            assert(v@ =~= mime_of(*self));
        }
        v
    }

    /// Reads a content type, case-insensitively; anything but an accepted
    /// image MIME string fails.
    pub fn parse(m: &Vec<u8>) -> (r: Result<ImageContentType, UnsupportedContentType>)
        ensures
            r == match content_type_of(lower_bytes(m@)) {
                Some(t) => Ok::<ImageContentType, UnsupportedContentType>(t),
                None => Err::<ImageContentType, UnsupportedContentType>(UnsupportedContentType),
            },
    {
        let mut lowered: Vec<u8> = Vec::new();
        let mut k: usize = 0;
        proof {
            assert(lowered@ =~= lower_bytes(m@.subrange(0, 0)));
        }
        while k < m.len()
            invariant
                k <= m@.len(),
                lowered@ == lower_bytes(m@.subrange(0, k as int)),
            decreases m@.len() - k,
        {
            let b = m[k];
            if 65 <= b && b <= 90 {
                lowered.push(b + 32);
            } else {
                lowered.push(b);
            }
            proof {
                assert(m@.subrange(0, k + 1) =~= m@.subrange(0, k as int).push(m@[k as int]));
                assert(lowered@ =~= lower_bytes(m@.subrange(0, k + 1)));
            }
            k = k + 1;
        }
        proof {
            assert(m@.subrange(0, m@.len() as int) =~= m@);
        }
    let m_png = ImageContentType::Png.mime();
    if crate::room::eq_bytes(&lowered, &m_png) {
        return Ok(ImageContentType::Png);
    }
    let m_jpg = ImageContentType::Jpg.mime();
    if crate::room::eq_bytes(&lowered, &m_jpg) {
        return Ok(ImageContentType::Jpg);
    }
    let m_jpeg = ImageContentType::Jpeg.mime();
    if crate::room::eq_bytes(&lowered, &m_jpeg) {
        return Ok(ImageContentType::Jpeg);
    }
    let m_gif = ImageContentType::Gif.mime();
    if crate::room::eq_bytes(&lowered, &m_gif) {
        return Ok(ImageContentType::Gif);
    }
    let m_webp = ImageContentType::Webp.mime();
    if crate::room::eq_bytes(&lowered, &m_webp) {
        return Ok(ImageContentType::Webp);
    }
    let m_svg = ImageContentType::Svg.mime();
    if crate::room::eq_bytes(&lowered, &m_svg) {
        return Ok(ImageContentType::Svg);
    }
    Err(UnsupportedContentType)
    }
}

} // verus!
