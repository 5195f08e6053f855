use vstd::prelude::*;
use vstd::arithmetic::div_mod::lemma_fundamental_div_mod_converse;

verus! {

/// The number that the four bytes of `b` from `at` encode, most significant first.
pub open spec fn be_u32(b: Seq<u8>, at: int) -> nat {
    (b[at] as nat) * 16777216 + (b[at + 1] as nat) * 65536 + (b[at + 2] as nat) * 256 + (b[at + 3] as nat)
}

/// Reads the big-endian number of four bytes of `b` from `at`.
fn read_be_u32(b: &Vec<u8>, at: usize) -> (r: u32)
    requires
        at + 4 <= b.len(),
    ensures
        r == be_u32(b@, at as int),
{
    (b[at] as u32) * 16777216 + (b[at + 1] as u32) * 65536 + (b[at + 2] as u32) * 256 + (b[at + 3] as u32)
}

/// A copy of `b[from .. from + len]`.
fn copy_range(b: &Vec<u8>, from: usize, len: usize) -> (r: Vec<u8>)
    requires
        from + len <= b.len(),
    ensures
        r@ == b@.subrange(from as int, from + len),
{
    let mut r: Vec<u8> = Vec::new();
    let mut i: usize = 0;
    while i < len
        invariant
            i <= len,
            from + len <= b.len(),
            r@ == b@.subrange(from as int, from + i),
        decreases len - i,
    {
        r.push(b[from + i]);
        i = i + 1;
        proof {
            assert(r@ =~= b@.subrange(from as int, from + i));
        }
    }
    r
}

/// Why a file could not be read.
#[derive(Debug)]
pub enum DatasetError {
    /// The file is shorter than its header.
    Header,
    /// The file holds fewer bytes than its header announces.
    Truncated,
    /// An image holds more pixels than this machine can address.
    TooLarge,
}

/// A set of grey images of `height` rows and `width` columns, one byte per
/// pixel, row-major, one image after the other.
pub struct ImageSet {
    pub count: usize,
    pub height: usize,
    pub width: usize,
    pub pixels: Vec<u8>,
}

impl ImageSet {
    /// Pixels per image.
    pub open spec fn image_size(&self) -> nat {
        self.height as nat * self.width as nat
    }

    pub open spec fn wf(&self) -> bool {
        &&& self.pixels@.len() == self.count as nat * self.image_size()
        &&& self.image_size() <= usize::MAX
    }
}

/// An image file holds its header and every image the header announces.
pub open spec fn images_file_ok(b: Seq<u8>) -> bool {
    &&& b.len() >= 16
    &&& 16 + be_u32(b, 4) * (be_u32(b, 8) * be_u32(b, 12)) <= b.len()
    &&& be_u32(b, 8) * be_u32(b, 12) <= usize::MAX
}

/// `s` is the image set that the file `b` holds.
pub open spec fn images_of(s: ImageSet, b: Seq<u8>) -> bool {
    let count = be_u32(b, 4);
    let size = be_u32(b, 8) * be_u32(b, 12);
    &&& s.wf()
    &&& s.count == count
    &&& s.height == be_u32(b, 8)
    &&& s.width == be_u32(b, 12)
    &&& s.pixels@ == b.subrange(16, (16 + count * size) as int)
}

/// A label file holds its header and every label the header announces.
pub open spec fn labels_file_ok(b: Seq<u8>) -> bool {
    b.len() >= 8 && 8 + be_u32(b, 4) <= b.len()
}

/// `l` are the labels that the file `b` holds.
pub open spec fn labels_of(l: Seq<u8>, b: Seq<u8>) -> bool {
    l == b.subrange(8, (8 + be_u32(b, 4)) as int)
}

/// Parses an image file: a four-byte magic number, then the number of images,
/// the height and the width as four-byte big-endian numbers, then the pixels.
/// Bytes after the last image are ignored.
pub fn parse_images(bytes: &Vec<u8>) -> (r: Result<ImageSet, DatasetError>)
    ensures
        bytes@.len() < 16 <==> r matches Err(DatasetError::Header),
        r is Ok <==> images_file_ok(bytes@),
        r matches Ok(s) ==> images_of(s, bytes@),
        r matches Err(DatasetError::TooLarge) <==> bytes@.len() >= 16 && be_u32(bytes@, 8) * be_u32(
            bytes@,
            12,
        ) > usize::MAX,
        r matches Err(DatasetError::Truncated) <==> bytes@.len() >= 16 && be_u32(bytes@, 8) * be_u32(
            bytes@,
            12,
        ) <= usize::MAX && !images_file_ok(bytes@),
{
    if bytes.len() < 16 {
        return Err(DatasetError::Header);
    }
    let count = read_be_u32(bytes, 4);
    let height = read_be_u32(bytes, 8);
    let width = read_be_u32(bytes, 12);
    proof {
        assert((height as nat) * (width as nat) <= 0xffff_ffff * 0xffff_ffff) by (nonlinear_arith)
            requires height <= 0xffff_ffff, width <= 0xffff_ffff;
    }
    let size: u64 = (height as u64) * (width as u64);
    let avail: u64 = (bytes.len() - 16) as u64;
    if size > usize::MAX as u64 {
        return Err(DatasetError::TooLarge);
    }
    match (count as u64).checked_mul(size) {
        None => Err(DatasetError::Truncated),
        Some(total) => {
            if total > avail {
                Err(DatasetError::Truncated)
            } else {
                let pixels = copy_range(bytes, 16, total as usize);
                Ok(ImageSet { count: count as usize, height: height as usize, width: width as usize, pixels })
            }
        },
    }
}

/// Parses a label file: a four-byte magic number, the number of labels as a
/// four-byte big-endian number, then one byte per label. Bytes after the last
/// label are ignored.
pub fn parse_labels(bytes: &Vec<u8>) -> (r: Result<Vec<u8>, DatasetError>)
    ensures
        bytes@.len() < 8 <==> r matches Err(DatasetError::Header),
        r is Ok <==> labels_file_ok(bytes@),
        r matches Ok(l) ==> labels_of(l@, bytes@),
        r matches Err(DatasetError::Truncated) <==> bytes@.len() >= 8 && !labels_file_ok(bytes@),
        r is Err ==> (r matches Err(DatasetError::Header) || r matches Err(DatasetError::Truncated)),
{
    if bytes.len() < 8 {
        return Err(DatasetError::Header);
    }
    let count = read_be_u32(bytes, 4) as usize;
    if count > bytes.len() - 8 {
        Err(DatasetError::Truncated)
    } else {
        Ok(copy_range(bytes, 8, count))
    }
}


/// Relies on rand::Rng::gen_range of rand 0.7, on the thread-local generator:
/// a value in `[0, n)`; it panics when the range is empty.
#[verifier::external_body]
fn random_below(n: usize) -> (r: usize)
    requires
        n > 0,
    ensures
        r < n,
{
    rand::Rng::gen_range(&mut rand::thread_rng(), 0usize, n)
}

/// The pixels of the images of `set` at `indices`, one after the other.
pub open spec fn gathered_pixels(set: ImageSet, indices: Seq<usize>) -> Seq<u8> {
    let size = set.image_size() as int;
    Seq::new(indices.len() * set.image_size(), |i: int| set.pixels@[indices[i / size] * size + i % size])
}

/// The labels at `indices`.
pub open spec fn gathered_labels(labels: Seq<u8>, indices: Seq<usize>) -> Seq<u8> {
    Seq::new(indices.len(), |i: int| labels[indices[i] as int])
}

/// A batch drawn from a data set: the indices of its items, their pixels one
/// image after the other, and their labels.
#[derive(Debug)]
pub struct Batch {
    pub indices: Vec<usize>,
    pub pixels: Vec<u8>,
    pub labels: Vec<u8>,
}

/// A training set and a test set of labelled images.
pub struct MNISTLoader {
    pub train_images: ImageSet,
    pub train_labels: Vec<u8>,
    pub test_images: ImageSet,
    pub test_labels: Vec<u8>,
}

impl MNISTLoader {
    /// Both image sets are well formed.
    pub open spec fn wf(&self) -> bool {
        &&& self.train_images.wf()
        &&& self.test_images.wf()
    }

    /// Every training image has a label.
    pub open spec fn labelled(&self) -> bool {
        self.train_labels@.len() >= self.train_images.count
    }

    /// Parses the four files of the two sets. The label files may hold more
    /// or fewer labels than their image files hold images.
    pub fn new(
        train_images: &Vec<u8>,
        train_labels: &Vec<u8>,
        test_images: &Vec<u8>,
        test_labels: &Vec<u8>,
    ) -> (r: Result<Self, DatasetError>)
        ensures
            r is Ok <==> {
                &&& images_file_ok(train_images@)
                &&& labels_file_ok(train_labels@)
                &&& images_file_ok(test_images@)
                &&& labels_file_ok(test_labels@)
            },
            r matches Ok(l) ==> {
                &&& l.wf()
                &&& images_of(l.train_images, train_images@)
                &&& labels_of(l.train_labels@, train_labels@)
                &&& images_of(l.test_images, test_images@)
                &&& labels_of(l.test_labels@, test_labels@)
            },
    {
        let a = parse_images(train_images)?;
        let b = parse_labels(train_labels)?;
        let c = parse_images(test_images)?;
        let d = parse_labels(test_labels)?;
        Ok(MNISTLoader { train_images: a, train_labels: b, test_images: c, test_labels: d })
    }
}


impl MNISTLoader {
    /// The pixels and labels of the training items at `indices`.
    pub fn gather(&self, indices: Vec<usize>) -> (r: Batch)
        requires
            self.wf(),
            self.labelled(),
            forall|i: int| 0 <= i < indices@.len() ==> #[trigger] indices@[i] < self.train_images.count,
            indices@.len() * self.train_images.image_size() <= usize::MAX,
        ensures
            r.indices@ == indices@,
            r.pixels@ == gathered_pixels(self.train_images, indices@),
            r.labels@ == gathered_labels(self.train_labels@, indices@),
    {
        let set = &self.train_images;
        let ghost size = set.image_size() as int;
        let ghost want = gathered_pixels(*set, indices@);
        let fs = set.height * set.width;
        let mut pixels: Vec<u8> = Vec::new();
        let mut labels: Vec<u8> = Vec::new();
        let mut b: usize = 0;
        while b < indices.len()
            invariant
                self.wf(),
                self.labelled(),
                set == &self.train_images,
                fs == size,
                size == set.image_size(),
                want == gathered_pixels(*set, indices@),
                forall|i: int| 0 <= i < indices@.len() ==> #[trigger] indices@[i] < set.count,
                indices@.len() * fs <= usize::MAX,
                set.pixels.len() == set.count * fs,
                b <= indices@.len(),
                pixels@.len() == b * fs,
                forall|k: int| 0 <= k < pixels@.len() ==> pixels@[k] == want[k],
                labels@ == gathered_labels(self.train_labels@, indices@.subrange(0, b as int)),
            decreases indices.len() - b,
        {
            let at = indices[b];
            proof {
                assert(b * fs + fs <= indices@.len() * fs) by (nonlinear_arith)
                    requires b < indices@.len();
                assert(at * fs + fs <= set.count * fs) by (nonlinear_arith)
                    requires at < set.count;
            }
            let mut j: usize = 0;
            while j < fs
                invariant
                    self.wf(),
                    set == &self.train_images,
                    fs == size,
                    size == set.image_size(),
                    want == gathered_pixels(*set, indices@),
                    b < indices@.len(),
                    at == indices@[b as int],
                    at * fs + fs <= set.count * fs,
                    set.pixels.len() == set.count * fs,
                    b * fs + fs <= indices@.len() * fs,
                    indices@.len() * fs <= usize::MAX,
                    j <= fs,
                    pixels@.len() == b * fs + j,
                    forall|k: int| 0 <= k < pixels@.len() ==> pixels@[k] == want[k],
                decreases fs - j,
            {
                proof {
                    lemma_fundamental_div_mod_converse(b * fs + j, fs as int, b as int, j as int);
                }
                pixels.push(set.pixels[at * fs + j]);
                proof {
                    let k = b * fs + j;
                    assert(want[k] == set.pixels@[indices@[k / size] * size + k % size]);
                    assert(pixels@[k] == want[k]);
                }
                j = j + 1;
            }
            labels.push(self.train_labels[at]);
            b = b + 1;
            proof {
                assert(b * fs == (b - 1) * fs + fs) by (nonlinear_arith);
                assert(labels@ =~= gathered_labels(self.train_labels@, indices@.subrange(0, b as int)));
            }
        }
        proof {
            assert(pixels@ =~= want);
            assert(indices@.subrange(0, b as int) =~= indices@);
        }
        Batch { indices, pixels, labels }
    }

    /// A batch of `batch_size` training items, each drawn uniformly at random
    /// (with replacement).
    pub fn sample(&self, batch_size: usize) -> (r: Batch)
        requires
            self.wf(),
            self.labelled(),
            self.train_images.count > 0,
            batch_size * self.train_images.image_size() <= usize::MAX,
        ensures
            r.indices@.len() == batch_size,
            forall|i: int| 0 <= i < batch_size ==> #[trigger] r.indices@[i] < self.train_images.count,
            r.pixels@ == gathered_pixels(self.train_images, r.indices@),
            r.labels@ == gathered_labels(self.train_labels@, r.indices@),
    {
        let mut indices: Vec<usize> = Vec::new();
        let mut i: usize = 0;
        while i < batch_size
            invariant
                i <= batch_size,
                self.train_images.count > 0,
                indices@.len() == i,
                forall|k: int| 0 <= k < i ==> #[trigger] indices@[k] < self.train_images.count,
            decreases batch_size - i,
        {
            let k = random_below(self.train_images.count);
            indices.push(k);
            i = i + 1;
        }
        self.gather(indices)
    }

    /// The whole test set: its pixels, one image after the other, and its labels.
    pub fn get_test_data(&self) -> (r: (Vec<u8>, Vec<u8>))
        requires
            self.wf(),
        ensures
            r.0@ == self.test_images.pixels@,
            r.1@ == self.test_labels@,
    {
        let p = copy_range(&self.test_images.pixels, 0, self.test_images.pixels.len());
        let l = copy_range(&self.test_labels, 0, self.test_labels.len());
        proof {
            assert(self.test_images.pixels@.subrange(0, self.test_images.pixels@.len() as int) =~= self.test_images.pixels@);
            assert(self.test_labels@.subrange(0, self.test_labels@.len() as int) =~= self.test_labels@);
        }
        (p, l)
    }
}

} // verus!
