//! Choosing the size of the carrier image before an insertion.

use vstd::prelude::*;

verus! {

/// The number of pixels that an image is to be resized to before an
/// insertion, where it is to be resized at all.
///
/// An image with more pixels than the payload needs is shrunk where a
/// smallest size is given and the image is larger than it: to the size
/// the payload needs, but not below the smallest size. An image with fewer
/// pixels than the payload needs is grown where a largest size is given
/// and the image is smaller than it: to the size the payload needs, but
/// not above the largest size.
pub open spec fn resize_target(
    current_pixels: usize,
    min_pixels: usize,
    shrink_to_fit_minimum_pixels: Option<usize>,
    grow_to_fit_maximum_pixels: Option<usize>,
) -> Option<usize> {
    if current_pixels > min_pixels {
        match shrink_to_fit_minimum_pixels {
            Some(smallest) => if current_pixels > smallest {
                Some(
                    if min_pixels >= smallest {
                        min_pixels
                    } else {
                        smallest
                    },
                )
            } else {
                None
            },
            None => None,
        }
    } else if current_pixels < min_pixels {
        match grow_to_fit_maximum_pixels {
            Some(largest) => if current_pixels < largest {
                Some(
                    if min_pixels <= largest {
                        min_pixels
                    } else {
                        largest
                    },
                )
            } else {
                None
            },
            None => None,
        }
    } else {
        None
    }
}

/// The number of pixels that an image of `current_pixels` pixels is to be
/// resized to, so that it comes close to the `min_pixels` that the payload
/// needs, or `None` where it is to stay as it is.
pub fn pixels_after_resizing(
    current_pixels: usize,
    min_pixels: usize,
    shrink_to_fit_minimum_pixels: Option<usize>,
    grow_to_fit_maximum_pixels: Option<usize>,
) -> (target: Option<usize>)
    ensures
        target == resize_target(
            current_pixels,
            min_pixels,
            shrink_to_fit_minimum_pixels,
            grow_to_fit_maximum_pixels,
        ),
        target matches Some(pixels) ==> pixels != current_pixels,
{
    if current_pixels > min_pixels {
        match shrink_to_fit_minimum_pixels {
            Some(smallest) => {
                if current_pixels > smallest {
                    Some(
                        if min_pixels >= smallest {
                            min_pixels
                        } else {
                            smallest
                        },
                    )
                } else {
                    None
                }
            },
            None => None,
        }
    } else if current_pixels < min_pixels {
        match grow_to_fit_maximum_pixels {
            Some(largest) => {
                if current_pixels < largest {
                    Some(
                        if min_pixels <= largest {
                            min_pixels
                        } else {
                            largest
                        },
                    )
                } else {
                    None
                }
            },
            None => None,
        }
    } else {
        None
    }
}

} // verus!
