use vstd::prelude::*;
pub use crate::paths::directory;
use crate::text::{chars_of, parse_u64, parse_unsigned, push_decimal, decimal, string_push};
use aes_gcm::aead::{Aead, KeyInit};

verus! {

#[verifier::external_type_specification]
#[verifier::external_body]
pub struct ExAeadError(aes_gcm::Error);

#[verifier::external_type_specification]
#[verifier::external_body]
pub struct ExArgon2Error(argon2::Error);

#[verifier::external_type_specification]
#[verifier::external_body]
pub struct ExRandError(rand::Error);

/// The 32-byte key that Argon2id with default parameters derives from a
/// password and a salt.
pub uninterp spec fn argon2id_key(password: Seq<u8>, salt: Seq<u8>) -> Seq<u8>;

/// The ciphertext followed by the 16-byte tag that AES-256-GCM produces for a
/// plaintext under a key and a nonce, with no associated data.
pub uninterp spec fn aes256gcm_seal(key: Seq<u8>, nonce: Seq<u8>, plaintext: Seq<u8>) -> Seq<u8>;

/// The plaintext that AES-256-GCM recovers from a sealed buffer under a key
/// and a nonce, or `None` where the tag does not authenticate it.
pub uninterp spec fn aes256gcm_open(key: Seq<u8>, nonce: Seq<u8>, sealed: Seq<u8>) -> Option<Seq<u8>>;

/// Longest plaintext that AES-GCM seals (2^36 bytes).
pub const AES_GCM_MAX_PLAINTEXT: u64 = 0x10_0000_0000;

/// Longest password that Argon2 takes.
pub const ARGON2_MAX_PASSWORD: u64 = 0xFFFF_FFFF;

/// `argon2::Argon2::default().hash_password_into` with a 16-byte salt and a
/// 32-byte output. With the default parameters and these lengths the crate
/// refuses only a password longer than `ARGON2_MAX_PASSWORD`; the key it
/// writes is `argon2id_key` of the password and the salt.
#[verifier::external_body]
fn argon2_hash_into(password: &[u8], salt: &[u8; 16]) -> (r: Result<[u8; 32], argon2::Error>)
    ensures
        r is Ok <==> password@.len() <= ARGON2_MAX_PASSWORD,
        r matches Ok(key) ==> key@ == argon2id_key(password@, salt@),
{
    let mut key = [0u8; 32];
    argon2::Argon2::default().hash_password_into(password, salt, &mut key).map(|_| key)
}

/// Whether, under `key` and `nonce`, `plaintext` is the only plaintext of its
/// length whose sealed bytes before the tag are those of `plaintext`: the
/// counter-mode keystream depends on the key, the nonce and the position only,
/// and is XORed onto the plaintext.
pub open spec fn keystream_determines(key: Seq<u8>, nonce: Seq<u8>, plaintext: Seq<u8>) -> bool {
    forall|other: Seq<u8>|
        other.len() == plaintext.len()
            && (#[trigger] aes256gcm_seal(key, nonce, other)).take(plaintext.len() as int)
                == aes256gcm_seal(key, nonce, plaintext).take(plaintext.len() as int)
            ==> other == plaintext
}

/// `Aead::encrypt` of `aes_gcm::Aes256Gcm` keyed with `key`, with no
/// associated data. The crate refuses only a plaintext longer than 2^36
/// bytes; otherwise it returns `aes256gcm_seal`: the plaintext XORed with the
/// counter-mode keystream of the key and nonce, then a 16-byte tag.
/// Decryption under the same key and nonce turns it back into the plaintext,
/// and no other plaintext of that length seals to the same bytes before the
/// tag.
#[verifier::external_body]
fn aes256gcm_encrypt(key: &[u8; 32], nonce: &[u8; 12], plaintext: &[u8]) -> (r: Result<Vec<u8>, aes_gcm::Error>)
    ensures
        r is Ok <==> plaintext@.len() <= AES_GCM_MAX_PLAINTEXT,
        r matches Ok(sealed) ==> sealed@ == aes256gcm_seal(key@, nonce@, plaintext@),
        r matches Ok(sealed) ==> sealed@.len() == plaintext@.len() + 16,
        r matches Ok(sealed) ==> aes256gcm_open(key@, nonce@, sealed@) == Some(plaintext@),
        r is Ok ==> keystream_determines(key@, nonce@, plaintext@),
{
    let cipher = aes_gcm::Aes256Gcm::new(key.into());
    cipher.encrypt(aes_gcm::Nonce::from_slice(nonce), plaintext)
}

/// `Aead::decrypt` of `aes_gcm::Aes256Gcm` keyed with `key`, with no
/// associated data: the plaintext where `aes256gcm_open` finds one, which is
/// 16 bytes shorter than the sealed buffer. It succeeds only where the tag it
/// recomputes over the ciphertext equals the buffer's tag, so sealing the
/// plaintext again gives back exactly the buffer.
#[verifier::external_body]
fn aes256gcm_decrypt(key: &[u8; 32], nonce: &[u8], sealed: &[u8]) -> (r: Result<Vec<u8>, aes_gcm::Error>)
    requires
        nonce@.len() == 12,
    ensures
        r is Ok <==> aes256gcm_open(key@, nonce@, sealed@) is Some,
        r matches Ok(plain) ==> aes256gcm_open(key@, nonce@, sealed@) == Some(plain@),
        r matches Ok(plain) ==> plain@.len() + 16 == sealed@.len(),
        r matches Ok(plain) ==> aes256gcm_seal(key@, nonce@, plain@) == sealed@,
{
    let cipher = aes_gcm::Aes256Gcm::new(key.into());
    cipher.decrypt(aes_gcm::Nonce::from_slice(nonce), sealed)
}

/// `RngCore::try_fill_bytes` of `rand::rngs::OsRng` on `N` bytes: the
/// operating system's generator, which may fail. Nothing is claimed of the
/// bytes, nor of when it fails.
#[verifier::external_body]
pub(crate) fn os_random<const N: usize>() -> Result<[u8; N], rand::Error> {
    let mut bytes = [0u8; N];
    rand::RngCore::try_fill_bytes(&mut rand::rngs::OsRng, &mut bytes).map(|_| bytes)
}

/// Errors of the screenshot archive.
#[derive(Clone, Copy, Debug, PartialEq, Eq, Structural)]
pub enum SnapshotError {
    /// Argon2 refused the password.
    KeyDerivation,
    /// AES-GCM refused to seal the frame.
    Encryption,
    /// The operating system's random generator failed.
    RandomUnavailable,
    /// Too short, or does not start with the archive header.
    InvalidFile,
    /// The tag does not authenticate the file under the key.
    AuthenticationFailed,
    /// A protected key that does not unwrap to 32 bytes.
    InvalidProtectedKey,
    /// The sealed frame alone exceeds the archive's share of the volume.
    QuotaExceeded,
}

impl SnapshotError {
    /// A short description of the error.
    pub fn message(&self) -> (r: &'static str)
        ensures
            *self == SnapshotError::KeyDerivation ==> r@ == "derive screenshot key"@,
            *self == SnapshotError::Encryption ==> r@ == "encrypt screenshot"@,
            *self == SnapshotError::RandomUnavailable ==> r@ == "random generator unavailable"@,
            *self == SnapshotError::InvalidFile ==> r@ == "invalid screenshot file"@,
            *self == SnapshotError::AuthenticationFailed ==> r@ == "screenshot authentication failed"@,
            *self == SnapshotError::InvalidProtectedKey ==> r@ == "invalid protected key"@,
            *self == SnapshotError::QuotaExceeded ==> r@ == "screenshot exceeds storage quota"@,
    {
        match self {
            SnapshotError::KeyDerivation => "derive screenshot key",
            SnapshotError::Encryption => "encrypt screenshot",
            SnapshotError::RandomUnavailable => "random generator unavailable",
            SnapshotError::InvalidFile => "invalid screenshot file",
            SnapshotError::AuthenticationFailed => "screenshot authentication failed",
            SnapshotError::InvalidProtectedKey => "invalid protected key",
            SnapshotError::QuotaExceeded => "screenshot exceeds storage quota",
        }
    }
}

/// Length of the archive header, of the nonce and of the tag.
pub const HEADER_LEN: usize = 7;
pub const NONCE_LEN: usize = 12;
pub const TAG_LEN: usize = 16;

/// The header that starts every archive file: `RVSHOT1`.
pub open spec fn shot_header() -> Seq<u8> {
    seq![82u8, 86u8, 83u8, 72u8, 79u8, 84u8, 49u8]
}

/// An archive file: header, nonce, then the sealed frame.
pub open spec fn sealed_file(key: Seq<u8>, nonce: Seq<u8>, plaintext: Seq<u8>) -> Seq<u8> {
    shot_header() + nonce + aes256gcm_seal(key, nonce, plaintext)
}

/// What reading an archive file under `key` gives.
pub open spec fn opened_file(key: Seq<u8>, data: Seq<u8>) -> Result<Seq<u8>, SnapshotError> {
    if data.len() < HEADER_LEN + NONCE_LEN + TAG_LEN || data.subrange(0, 7) != shot_header() {
        Err(SnapshotError::InvalidFile)
    } else {
        match aes256gcm_open(key, data.subrange(7, 19), data.subrange(19, data.len() as int)) {
            Some(p) => Ok(p),
            None => Err(SnapshotError::AuthenticationFailed),
        }
    }
}

/// Whether what an archive file opens to seals back to exactly the file's
/// sealed part (which holds of every file that `decrypt` reads).
pub open spec fn reseals(key: Seq<u8>, data: Seq<u8>) -> bool {
    match opened_file(key, data) {
        Ok(p) => {
            &&& aes256gcm_seal(key, data.subrange(7, 19), p) == data.subrange(19, data.len() as int)
            &&& p.len() + HEADER_LEN + NONCE_LEN + TAG_LEN == data.len()
        },
        Err(_) => true,
    }
}

/// Derives the archive key from the viewing password and a salt.
pub fn derive_key(password: &[u8], salt: &[u8; 16]) -> (r: Result<[u8; 32], SnapshotError>)
    ensures
        r is Ok <==> password@.len() <= ARGON2_MAX_PASSWORD,
        r matches Ok(key) ==> key@ == argon2id_key(password@, salt@),
        r is Err ==> r == Err::<[u8; 32], SnapshotError>(SnapshotError::KeyDerivation),
{
    match argon2_hash_into(password, salt) {
        Ok(key) => Ok(key),
        Err(_) => Err(SnapshotError::KeyDerivation),
    }
}

/// Seals a frame under `key` and `nonce` into the archive file format.
pub fn seal(key: &[u8; 32], nonce: &[u8; 12], plaintext: &[u8]) -> (r: Result<Vec<u8>, SnapshotError>)
    ensures
        r is Ok <==> plaintext@.len() <= AES_GCM_MAX_PLAINTEXT,
        r matches Ok(data) ==> data@ == sealed_file(key@, nonce@, plaintext@),
        r matches Ok(data) ==> data@.len() == plaintext@.len() + HEADER_LEN + NONCE_LEN + TAG_LEN,
        r matches Ok(data) ==> opened_file(key@, data@) == Ok::<Seq<u8>, SnapshotError>(plaintext@),
        r is Ok ==> keystream_determines(key@, nonce@, plaintext@),
        r is Err ==> r == Err::<Vec<u8>, SnapshotError>(SnapshotError::Encryption),
{
    match aes256gcm_encrypt(key, nonce, plaintext) {
        Ok(sealed) => {
            let mut data: Vec<u8> = Vec::new();
            data.push(82u8);
            data.push(86u8);
            data.push(83u8);
            data.push(72u8);
            data.push(79u8);
            data.push(84u8);
            data.push(49u8);
            crate::protocol::append_bytes(&mut data, nonce);
            crate::protocol::append_bytes(&mut data, &sealed);
            assert(data@ =~= sealed_file(key@, nonce@, plaintext@));
            assert(data@.subrange(0, 7) =~= shot_header());
            assert(data@.subrange(7, 19) =~= nonce@);
            assert(data@.subrange(19, data@.len() as int) =~= sealed@);
            Ok(data)
        },
        Err(_) => Err(SnapshotError::Encryption),
    }
}

/// Seals a frame under `key` with a fresh random nonce. Where the generator
/// fails, `RandomUnavailable`; otherwise success exactly where sealing
/// succeeds, and whatever nonce the generator gave, the file is 35 bytes
/// longer than the frame and reads back under `key` as the frame.
pub fn encrypt(key: &[u8; 32], plaintext: &[u8]) -> (r: Result<Vec<u8>, SnapshotError>)
    ensures
        plaintext@.len() > AES_GCM_MAX_PLAINTEXT ==> r is Err,
        r is Err ==> r == Err::<Vec<u8>, SnapshotError>(SnapshotError::Encryption)
            || r == Err::<Vec<u8>, SnapshotError>(SnapshotError::RandomUnavailable),
        r == Err::<Vec<u8>, SnapshotError>(SnapshotError::Encryption) ==> plaintext@.len() > AES_GCM_MAX_PLAINTEXT,
        r matches Ok(data) ==> exists|nonce: Seq<u8>|
            nonce.len() == NONCE_LEN && data@ == #[trigger] sealed_file(key@, nonce, plaintext@)
                && keystream_determines(key@, nonce, plaintext@),
        r matches Ok(data) ==> data@.len() == plaintext@.len() + HEADER_LEN + NONCE_LEN + TAG_LEN,
        r matches Ok(data) ==> opened_file(key@, data@) == Ok::<Seq<u8>, SnapshotError>(plaintext@),
{
    let nonce: [u8; 12] = match os_random() {
        Ok(bytes) => bytes,
        Err(_) => return Err(SnapshotError::RandomUnavailable),
    };
    let r = seal(key, &nonce, plaintext);
    assert(r matches Ok(data) ==> data@ == sealed_file(key@, nonce@, plaintext@)
        && keystream_determines(key@, nonce@, plaintext@));
    r
}

/// Opens an archive file under `key`.
pub fn decrypt(key: &[u8; 32], data: &[u8]) -> (r: Result<Vec<u8>, SnapshotError>)
    ensures
        match r {
            Ok(plain) => opened_file(key@, data@) == Ok::<Seq<u8>, SnapshotError>(plain@),
            Err(e) => opened_file(key@, data@) == Err::<Seq<u8>, SnapshotError>(e),
        },
        reseals(key@, data@),
{
    let n = data.len();
    if n < HEADER_LEN + NONCE_LEN + TAG_LEN || data[0] != 82u8 || data[1] != 86u8 || data[2] != 83u8
        || data[3] != 72u8 || data[4] != 79u8 || data[5] != 84u8 || data[6] != 49u8 {
        proof {
            if n >= 35 {
                assert(data@.subrange(0, 7)[0] == data@[0]);
                assert(data@.subrange(0, 7)[1] == data@[1]);
                assert(data@.subrange(0, 7)[2] == data@[2]);
                assert(data@.subrange(0, 7)[3] == data@[3]);
                assert(data@.subrange(0, 7)[4] == data@[4]);
                assert(data@.subrange(0, 7)[5] == data@[5]);
                assert(data@.subrange(0, 7)[6] == data@[6]);
            }
        }
        return Err(SnapshotError::InvalidFile);
    }
    assert(data@.subrange(0, 7) =~= shot_header());
    match aes256gcm_decrypt(key, &data[7..19], &data[19..n]) {
        Ok(plain) => Ok(plain),
        Err(_) => Err(SnapshotError::AuthenticationFailed),
    }
}

/// A file sealed under `key` (as `seal` and `encrypt` make it, 35 bytes
/// longer than its frame, with a keystream that determines the frame) with
/// one byte of its tag changed is refused, given what `decrypt` ensures of
/// every file it reads: whatever the file opens to seals back to it. Only the
/// original frame could seal to the unchanged bytes before the tag, and its
/// tag is the unchanged one.
pub proof fn lemma_changed_tag_refused(key: Seq<u8>, nonce: Seq<u8>, plaintext: Seq<u8>, tampered: Seq<u8>, i: int)
    requires
        nonce.len() == NONCE_LEN,
        keystream_determines(key, nonce, plaintext),
        sealed_file(key, nonce, plaintext).len() == plaintext.len() + HEADER_LEN + NONCE_LEN + TAG_LEN,
        tampered.len() == sealed_file(key, nonce, plaintext).len(),
        tampered.len() - TAG_LEN <= i < tampered.len(),
        tampered[i] != sealed_file(key, nonce, plaintext)[i],
        forall|j: int| 0 <= j < tampered.len() && j != i ==> tampered[j] == sealed_file(key, nonce, plaintext)[j],
        reseals(key, tampered),
    ensures
        opened_file(key, tampered) is Err,
{
    let data = sealed_file(key, nonce, plaintext);
    let n = plaintext.len();
    if opened_file(key, tampered) is Ok {
        let p2 = opened_file(key, tampered)->Ok_0;
        assert(tampered.subrange(7, 19) =~= nonce) by {
            assert forall|k: int| 0 <= k < 12 implies tampered.subrange(7, 19)[k] == nonce[k] by {
                assert(tampered[7 + k] == data[7 + k]);
            }
        }
        let sealed = aes256gcm_seal(key, nonce, plaintext);
        assert(data.subrange(19, data.len() as int) =~= sealed);
        assert(p2.len() == n);
        assert(aes256gcm_seal(key, nonce, p2).take(n as int) =~= sealed.take(n as int)) by {
            assert forall|k: int| 0 <= k < n implies aes256gcm_seal(key, nonce, p2)[k] == sealed[k] by {
                assert(aes256gcm_seal(key, nonce, p2)[k] == tampered.subrange(19, tampered.len() as int)[k]);
                assert(tampered[19 + k] == data[19 + k]);
            }
        }
        assert(p2 == plaintext);
        assert(aes256gcm_seal(key, nonce, p2)[i - 19] == tampered[i]);
        assert(sealed[i - 19] == data[i]);
    }
}

/// Turns the bytes that the operating system's key protection gave back into
/// the archive key; anything but 32 bytes is refused.
pub fn unprotect_key(raw: &[u8]) -> (r: Result<[u8; 32], SnapshotError>)
    ensures
        r is Ok <==> raw@.len() == 32,
        r matches Ok(key) ==> key@ == raw@,
        r is Err ==> r == Err::<[u8; 32], SnapshotError>(SnapshotError::InvalidProtectedKey),
{
    if raw.len() != 32 {
        return Err(SnapshotError::InvalidProtectedKey);
    }
    let mut key = [0u8; 32];
    let mut i: usize = 0;
    while i < 32
        invariant
            i <= 32,
            raw@.len() == 32,
            forall|j: int| 0 <= j < i ==> key@[j] == raw@[j],
        decreases 32 - i,
    {
        key[i] = raw[i];
        i = i + 1;
    }
    assert(key@ =~= raw@);
    Ok(key)
}


/// Frames of one minute apart at the least are kept (microseconds).
pub const INTERVAL_US: u64 = 60000000;
/// Most identifiers a listing reply carries.
pub const LIST_LIMIT: usize = 1000;

/// A directory entry as the file system lists it: its name and its size.
pub struct DirFile {
    pub name: String,
    pub size: u64,
}

impl View for DirFile {
    type V = (Seq<char>, u64);

    open spec fn view(&self) -> (Seq<char>, u64) {
        (self.name@, self.size)
    }
}

/// An archive file: the frame id that its name carries, its name and its size.
pub struct ShotEntry {
    pub id: u64,
    pub name: String,
    pub size: u64,
}

impl View for ShotEntry {
    type V = (u64, Seq<char>, u64);

    open spec fn view(&self) -> (u64, Seq<char>, u64) {
        (self.id, self.name@, self.size)
    }
}

pub open spec fn files_view(files: Seq<DirFile>) -> Seq<(Seq<char>, u64)> {
    files.map_values(|f: DirFile| f@)
}

pub open spec fn entries_view(entries: Seq<ShotEntry>) -> Seq<(u64, Seq<char>, u64)> {
    entries.map_values(|e: ShotEntry| e@)
}

/// The suffix that marks an archive file.
pub open spec fn shot_suffix() -> Seq<char> {
    seq!['.', 's', 'h', 'o', 't']
}

/// The frame id of an archive file name: a stem that parses as a `u64`
/// followed by the extension `shot`.
pub open spec fn shot_id(name: Seq<char>) -> Option<u64> {
    if name.len() > 5 && name.subrange(name.len() - 5, name.len() as int) == shot_suffix() {
        match parse_unsigned(name.subrange(0, name.len() - 5), u64::MAX as nat) {
            Some(v) => Some(v as u64),
            None => None,
        }
    } else {
        None
    }
}

/// The archive files among `files`, in listing order.
pub open spec fn listed_shots(files: Seq<(Seq<char>, u64)>) -> Seq<(u64, Seq<char>, u64)>
    decreases files.len(),
{
    if files.len() == 0 {
        seq![]
    } else {
        let rest = listed_shots(files.drop_last());
        let f = files.last();
        match shot_id(f.0) {
            Some(id) => rest.push((id, f.0, f.1)),
            None => rest,
        }
    }
}

/// `sorted` with `e` placed after every entry whose id is not above its own.
pub open spec fn insert_by_id(sorted: Seq<(u64, Seq<char>, u64)>, e: (u64, Seq<char>, u64)) -> Seq<(u64, Seq<char>, u64)>
    decreases sorted.len(),
{
    if sorted.len() == 0 || sorted.last().0 <= e.0 {
        sorted.push(e)
    } else {
        insert_by_id(sorted.drop_last(), e).push(sorted.last())
    }
}

/// `s` in the stable order of ids (entries with equal ids keep their order).
pub open spec fn sort_by_id(s: Seq<(u64, Seq<char>, u64)>) -> Seq<(u64, Seq<char>, u64)>
    decreases s.len(),
{
    if s.len() == 0 {
        s
    } else {
        insert_by_id(sort_by_id(s.drop_last()), s.last())
    }
}

/// The archive, oldest first.
pub open spec fn archive(files: Seq<(Seq<char>, u64)>) -> Seq<(u64, Seq<char>, u64)> {
    sort_by_id(listed_shots(files))
}

/// Whether ids never decrease along `s`.
pub open spec fn ids_ascending(s: Seq<(u64, Seq<char>, u64)>) -> bool {
    forall|i: int, j: int| 0 <= i <= j < s.len() ==> s[i].0 <= s[j].0
}

proof fn lemma_insert_by_id(s: Seq<(u64, Seq<char>, u64)>, e: (u64, Seq<char>, u64))
    requires
        ids_ascending(s),
    ensures
        ids_ascending(insert_by_id(s, e)),
        insert_by_id(s, e).to_multiset() == s.to_multiset().insert(e),
    decreases s.len(),
{
    broadcast use vstd::seq_lib::group_to_multiset_ensures;
    if s.len() == 0 || s.last().0 <= e.0 {
    } else {
        let t = s.drop_last();
        assert(ids_ascending(t));
        lemma_insert_by_id(t, e);
        let r = insert_by_id(t, e);
        assert(s =~= t.push(s.last()));
        assert forall|i: int, j: int| 0 <= i <= j < r.push(s.last()).len() implies
            r.push(s.last())[i].0 <= r.push(s.last())[j].0 by {
            if j == r.len() {
                if i < r.len() {
                    assert(r.to_multiset().count(r[i]) > 0);
                    assert(s.to_multiset().insert(e).count(r[i]) > 0);
                    if r[i] != e {
                        assert(t.to_multiset().count(r[i]) > 0);
                        assert(t.contains(r[i]));
                        let k = choose|k: int| 0 <= k < t.len() && t[k] == r[i];
                        assert(s[k] == t[k]);
                    }
                }
            }
        }
    }
}

/// The stable sort by id orders ids ascending and keeps every entry.
pub proof fn lemma_sort_by_id(s: Seq<(u64, Seq<char>, u64)>)
    ensures
        ids_ascending(sort_by_id(s)),
        sort_by_id(s).to_multiset() == s.to_multiset(),
    decreases s.len(),
{
    broadcast use vstd::seq_lib::group_to_multiset_ensures;
    if s.len() > 0 {
        lemma_sort_by_id(s.drop_last());
        lemma_insert_by_id(sort_by_id(s.drop_last()), s.last());
        assert(s =~= s.drop_last().push(s.last()));
    }
}


/// The frame id that an archive file name carries, if it is one.
pub fn shot_id_of(name: &str) -> (r: Option<u64>)
    ensures
        r == shot_id(name@),
{
    let cs = chars_of(name);
    let n = cs.len();
    if n <= 5 {
        return None;
    }
    if cs[n - 5] != '.' || cs[n - 4] != 's' || cs[n - 3] != 'h' || cs[n - 2] != 'o' || cs[n - 1] != 't' {
        proof {
            let suffix = cs@.subrange(n - 5, n as int);
            if suffix == shot_suffix() {
                assert(suffix[0] == cs@[n - 5]);
                assert(suffix[1] == cs@[n - 4]);
                assert(suffix[2] == cs@[n - 3]);
                assert(suffix[3] == cs@[n - 2]);
                assert(suffix[4] == cs@[n - 1]);
            }
        }
        return None;
    }
    assert(cs@.subrange(n - 5, n as int) =~= shot_suffix());
    match parse_u64(&cs[0..n - 5]) {
        Some(v) => Some(v),
        None => None,
    }
}

proof fn lemma_insert_at(s: Seq<(u64, Seq<char>, u64)>, e: (u64, Seq<char>, u64), pos: int)
    requires
        0 <= pos <= s.len(),
        pos == 0 || s[pos - 1].0 <= e.0,
        forall|k: int| pos <= k < s.len() ==> s[k].0 > e.0,
    ensures
        insert_by_id(s, e) == s.insert(pos, e),
    decreases s.len(),
{
    if pos == s.len() {
        assert(s.insert(pos, e) =~= s.push(e));
    } else {
        let t = s.drop_last();
        lemma_insert_at(t, e, pos);
        assert(s.insert(pos, e) =~= t.insert(pos, e).push(s.last()));
    }
}

/// The archive files among `listing`, oldest first (stable in listing order
/// among equal ids).
pub fn entries(listing: &Vec<DirFile>) -> (r: Vec<ShotEntry>)
    ensures
        entries_view(r@) == archive(files_view(listing@)),
{
    let mut out: Vec<ShotEntry> = Vec::new();
    let mut i: usize = 0;
    while i < listing.len()
        invariant
            i <= listing@.len(),
            entries_view(out@) == sort_by_id(listed_shots(files_view(listing@.take(i as int)))),
        decreases listing@.len() - i,
    {
        let ghost before = files_view(listing@.take(i as int));
        let ghost after = files_view(listing@.take(i + 1));
        assert(after.drop_last() =~= before);
        assert(after.last() == listing@[i as int]@);
        let f = &listing[i];
        match shot_id_of(f.name.as_str()) {
            Some(id) => {
                let e = ShotEntry { id, name: f.name.clone(), size: f.size };
                let ghost sorted = entries_view(out@);
                let mut pos = out.len();
                while pos > 0 && out[pos - 1].id > id
                    invariant
                        pos <= out@.len(),
                        sorted == entries_view(out@),
                        forall|k: int| pos <= k < sorted.len() ==> sorted[k].0 > id,
                    decreases pos,
                {
                    pos = pos - 1;
                }
                proof {
                    lemma_insert_at(sorted, e@, pos as int);
                }
                out.insert(pos, e);
                assert(entries_view(out@) =~= sorted.insert(pos as int, e@));
                proof {
                    let l = listed_shots(after);
                    assert(l == listed_shots(before).push(e@));
                    assert(l.drop_last() =~= listed_shots(before));
                }
            },
            None => {
                assert(listed_shots(after) == listed_shots(before));
            },
        }
        i = i + 1;
    }
    assert(listing@.take(i as int) =~= listing@);
    out
}

/// The ids of the newest (at most `LIST_LIMIT`) archive files, newest first.
pub open spec fn newest_ids(archive: Seq<(u64, Seq<char>, u64)>) -> Seq<u64> {
    let n = if archive.len() < LIST_LIMIT { archive.len() } else { LIST_LIMIT as nat };
    Seq::new(n, |i: int| archive[archive.len() - 1 - i].0)
}

/// A listing reply holds every archived id or the first `LIST_LIMIT` of
/// them, newest first.
pub proof fn lemma_list_newest_first(files: Seq<(Seq<char>, u64)>)
    ensures
        ({
            let a = archive(files);
            let ids = newest_ids(a);
            &&& ids.len() <= LIST_LIMIT
            &&& ids.len() == a.len() || ids.len() == LIST_LIMIT
            &&& forall|i: int, j: int| 0 <= i <= j < ids.len() ==> ids[i] >= ids[j]
        }),
{
    lemma_sort_by_id(listed_shots(files));
    let a = archive(files);
    let ids = newest_ids(a);
    assert forall|i: int, j: int| 0 <= i <= j < ids.len() implies ids[i] >= ids[j] by {
        assert(a[a.len() - 1 - j].0 <= a[a.len() - 1 - i].0);
    }
}

/// The ids that a screenshot listing reports for a directory listing.
pub fn list(listing: &Vec<DirFile>) -> (r: Vec<u64>)
    ensures
        r@ == newest_ids(archive(files_view(listing@))),
{
    let all = entries(listing);
    let n = all.len();
    let ghost a = entries_view(all@);
    let mut out: Vec<u64> = Vec::new();
    let mut i: usize = 0;
    while i < n && i < LIST_LIMIT
        invariant
            i <= n,
            i <= LIST_LIMIT,
            n == all@.len(),
            a == entries_view(all@),
            out@ == Seq::new(i as nat, |k: int| a[n - 1 - k].0),
        decreases n - i,
    {
        out.push(all[n - 1 - i].id);
        i = i + 1;
        assert(out@ =~= Seq::new(i as nat, |k: int| a[n - 1 - k].0));
    }
    assert(a.len() == n);
    assert(out@ =~= newest_ids(a));
    out
}


/// `a - b`, or 0 where `b` is larger (as `u64::saturating_sub`).
pub open spec fn gap(a: u64, b: u64) -> int {
    if a >= b { a - b } else { 0 }
}

/// Whether a frame with id `id` is at least `INTERVAL_US` after the archived
/// frame `last` and may be archived.
pub open spec fn is_due(id: u64, last: u64) -> bool {
    gap(id, last) >= INTERVAL_US
}

/// Whether a frame with id `id` is due for the archive after the frame `last`.
pub fn snapshot_due(id: u64, last: u64) -> (r: bool)
    ensures
        r == is_due(id, last),
{
    id.saturating_sub(last) >= INTERVAL_US
}

/// Whether storing frame `id` is skipped: the newest archived frame is less
/// than `INTERVAL_US` older.
pub open spec fn store_skips(id: u64, archive: Seq<(u64, Seq<char>, u64)>) -> bool {
    archive.len() > 0 && !is_due(id, archive.last().0)
}

/// A frame is due for the archive exactly when it is at least one minute
/// (60,000,000 microseconds) after the last archived frame, over the full
/// 64-bit ids; a frame older than the last one is never due.
pub proof fn lemma_due_after_a_minute(id: u64, last: u64)
    ensures
        is_due(id, last) <==> (id as int) >= (last as int) + 60000000,
{
}

/// Storing frame `id` is skipped exactly when the archive holds a frame less
/// than one minute (60,000,000 microseconds) older than it, or not older at
/// all: that is, when the newest archived frame is that recent.
pub proof fn lemma_store_skips_newest(id: u64, files: Seq<(Seq<char>, u64)>)
    ensures
        store_skips(id, archive(files)) <==> exists|k: int|
            0 <= k < archive(files).len() && (id as int) < (#[trigger] archive(files)[k]).0 + 60000000,
{
    let a = archive(files);
    lemma_sort_by_id(listed_shots(files));
    if a.len() > 0 {
        let m = a.len() - 1;
        if store_skips(id, a) {
            assert((id as int) < a[m].0 + 60000000);
        }
        if exists|k: int| 0 <= k < a.len() && (id as int) < (#[trigger] a[k]).0 + 60000000 {
            let k = choose|k: int| 0 <= k < a.len() && (id as int) < (#[trigger] a[k]).0 + 60000000;
            assert(a[k].0 <= a[m].0);
        }
    }
}

/// A frame that was sealed for the archive and awaits room on the volume.
pub struct PendingShot {
    pub id: u64,
    /// The archive as it was listed, oldest first.
    pub entries: Vec<ShotEntry>,
    /// The sealed file.
    pub data: Vec<u8>,
}

/// The first step of storing a frame.
pub enum StoreStart {
    /// The newest archived frame is too recent: nothing is stored.
    Skip,
    Pending(PendingShot),
}

/// The first step of archiving frame `id`: skip it when the newest archived
/// frame is less than `INTERVAL_US` older, else seal it under `key` with a
/// fresh nonce (which fails only where the frame is too long or the random
/// generator fails).
pub fn store(id: u64, frame: &[u8], key: &[u8; 32], listing: &Vec<DirFile>) -> (r: Result<StoreStart, SnapshotError>)
    ensures
        store_skips(id, archive(files_view(listing@))) ==> r matches Ok(StoreStart::Skip),
        !store_skips(id, archive(files_view(listing@))) && frame@.len() > AES_GCM_MAX_PLAINTEXT ==> r is Err,
        !store_skips(id, archive(files_view(listing@))) ==> !(r matches Ok(StoreStart::Skip)),
        r is Err ==> r == Err::<StoreStart, SnapshotError>(SnapshotError::Encryption)
            || r == Err::<StoreStart, SnapshotError>(SnapshotError::RandomUnavailable),
        r == Err::<StoreStart, SnapshotError>(SnapshotError::Encryption) ==> frame@.len() > AES_GCM_MAX_PLAINTEXT,
        r matches Ok(StoreStart::Pending(p)) ==> {
            &&& p.id == id
            &&& entries_view(p.entries@) == archive(files_view(listing@))
            &&& opened_file(key@, p.data@) == Ok::<Seq<u8>, SnapshotError>(frame@)
            &&& p.data@.len() == frame@.len() + HEADER_LEN + NONCE_LEN + TAG_LEN
            &&& exists|nonce: Seq<u8>|
                nonce.len() == NONCE_LEN && p.data@ == #[trigger] sealed_file(key@, nonce, frame@)
        },
{
    let existing = entries(listing);
    let n = existing.len();
    if n > 0 && !snapshot_due(id, existing[n - 1].id) {
        return Ok(StoreStart::Skip);
    }
    match encrypt(key, frame) {
        Ok(data) => Ok(StoreStart::Pending(PendingShot { id, entries: existing, data })),
        Err(e) => Err(e),
    }
}

/// The sum of the sizes of `s`.
pub open spec fn total_size(s: Seq<(u64, Seq<char>, u64)>) -> int
    decreases s.len(),
{
    if s.len() == 0 {
        0
    } else {
        s[0].2 + total_size(s.drop_first())
    }
}

proof fn lemma_total_size_nonneg(s: Seq<(u64, Seq<char>, u64)>)
    ensures
        total_size(s) >= 0,
    decreases s.len(),
{
    if s.len() > 0 {
        lemma_total_size_nonneg(s.drop_first());
    }
}

proof fn lemma_total_size_skip(s: Seq<(u64, Seq<char>, u64)>, i: int)
    requires
        0 <= i <= s.len(),
    ensures
        total_size(s.skip(i)) <= total_size(s),
        i < s.len() ==> total_size(s.skip(i)) == s[i].2 + total_size(s.skip(i + 1)),
    decreases i,
{
    if i < s.len() {
        assert(s.skip(i).drop_first() =~= s.skip(i + 1));
    }
    if i > 0 {
        lemma_total_size_skip(s, i - 1);
        assert(s.skip(i - 1).drop_first() =~= s.skip(i));
    } else {
        assert(s.skip(0) =~= s);
    }
}

/// How many of the oldest files go so that the rest and `need` more bytes
/// fit within `limit`: none where they already fit, else the oldest and then
/// as many as the rest needs.
pub open spec fn evict_count(s: Seq<(u64, Seq<char>, u64)>, need: int, limit: int) -> nat
    decreases s.len(),
{
    if s.len() == 0 || total_size(s) + need <= limit {
        0
    } else {
        1 + evict_count(s.drop_first(), need, limit)
    }
}

/// The sum of the sizes of `entries`, where it fits in a `u64`.
pub fn total_size_of(entries: &Vec<ShotEntry>) -> (r: Option<u64>)
    ensures
        r is Some <==> total_size(entries_view(entries@)) <= u64::MAX,
        r matches Some(t) ==> t == total_size(entries_view(entries@)),
{
    let ghost es = entries_view(entries@);
    let mut used: u64 = 0;
    let mut j: usize = entries.len();
    while j > 0
        invariant
            j <= entries@.len(),
            es == entries_view(entries@),
            used == total_size(es.skip(j as int)),
        decreases j,
    {
        j = j - 1;
        proof { lemma_total_size_skip(es, j as int); }
        match used.checked_add(entries[j].size) {
            Some(u) => used = u,
            None => {
                proof { lemma_total_size_skip(es, j as int); }
                return None;
            },
        }
    }
    assert(es.skip(0) =~= es);
    Some(used)
}

/// Where a sealed frame goes: the names of the archive files to delete first,
/// oldest first, the sealed bytes, and the names to write them under and then
/// rename them to.
pub struct Placement {
    pub evict: Vec<String>,
    pub data: Vec<u8>,
    pub file_name: String,
    pub temp_name: String,
}

/// The name of the archive file of frame `id`: its decimal id and `.shot`.
pub open spec fn shot_name(id: u64) -> Seq<char> {
    decimal(id as nat) + shot_suffix()
}

/// The name a frame is written under before it is renamed: decimal id and `.tmp`.
pub open spec fn temp_name(id: u64) -> Seq<char> {
    decimal(id as nat) + seq!['.', 't', 'm', 'p']
}

/// The name a frame is stored under is read back as that frame's id, and the
/// temporary name is never taken for an archive file.
pub proof fn lemma_shot_name_roundtrip(id: u64)
    ensures
        shot_id(shot_name(id)) == Some(id),
        shot_id(temp_name(id)) is None,
{
    crate::text::lemma_decimal_parses(id as nat);
    let name = shot_name(id);
    let d = decimal(id as nat);
    assert(name.subrange(name.len() - 5, name.len() as int) =~= shot_suffix());
    assert(name.subrange(0, name.len() - 5) =~= d);
    let t = temp_name(id);
    assert(t.subrange(t.len() - 5, t.len() as int)[4] == 'p');
}

/// The archive file name of frame `id`.
pub fn shot_file_name(id: u64) -> (r: String)
    ensures
        r@ == shot_name(id),
{
    let mut s = String::new();
    push_decimal(&mut s, id);
    string_push(&mut s, '.');
    string_push(&mut s, 's');
    string_push(&mut s, 'h');
    string_push(&mut s, 'o');
    string_push(&mut s, 't');
    assert(s@ =~= shot_name(id));
    s
}

/// The temporary file name of frame `id`.
pub fn temp_file_name(id: u64) -> (r: String)
    ensures
        r@ == temp_name(id),
{
    let mut s = String::new();
    push_decimal(&mut s, id);
    string_push(&mut s, '.');
    string_push(&mut s, 't');
    string_push(&mut s, 'm');
    string_push(&mut s, 'p');
    assert(s@ =~= temp_name(id));
    s
}

/// The names in `s`.
pub open spec fn names_of(s: Seq<String>) -> Seq<Seq<char>> {
    s.map_values(|n: String| n@)
}

/// The file names of the archive entries `s`.
pub open spec fn entry_names(s: Seq<(u64, Seq<char>, u64)>) -> Seq<Seq<char>> {
    s.map_values(|e: (u64, Seq<char>, u64)| e.1)
}

/// The share of the volume that the archive may hold: one twentieth.
pub open spec fn quota(capacity: u64) -> int {
    (capacity / 20) as int
}

/// The archive's quota on a volume of `capacity` bytes is one twentieth of it,
/// rounded down, over the full 64-bit capacity.
pub proof fn lemma_quota_is_a_twentieth(capacity: u64)
    ensures
        quota(capacity) * 20 <= capacity < quota(capacity) * 20 + 20,
        quota(capacity) >= 0,
{
}

/// Nothing is evicted where the archive and the new file already fit the
/// limit; otherwise at least the oldest file goes.
pub proof fn lemma_no_eviction_when_it_fits(s: Seq<(u64, Seq<char>, u64)>, need: int, limit: int)
    ensures
        total_size(s) + need <= limit ==> evict_count(s, need, limit) == 0,
        s.len() > 0 && total_size(s) + need > limit ==> evict_count(s, need, limit) >= 1,
{
}

/// Where the new file alone fits the limit, eviction takes the fewest oldest
/// files that make room: after dropping that many the rest and the new file
/// fit, and after dropping one fewer they would not.
pub proof fn lemma_evict_fewest_oldest(s: Seq<(u64, Seq<char>, u64)>, need: int, limit: int)
    requires
        need <= limit,
    ensures
        evict_count(s, need, limit) <= s.len(),
        total_size(s.skip(evict_count(s, need, limit) as int)) + need <= limit,
        evict_count(s, need, limit) > 0 ==> total_size(s.skip(evict_count(s, need, limit) - 1)) + need > limit,
    decreases s.len(),
{
    let k = evict_count(s, need, limit);
    if s.len() == 0 || total_size(s) + need <= limit {
        assert(s.skip(0) =~= s);
    } else {
        let t = s.drop_first();
        lemma_evict_fewest_oldest(t, need, limit);
        let kt = evict_count(t, need, limit);
        assert(s.skip(k as int) =~= t.skip(kt as int));
        if kt > 0 {
            assert(s.skip(k - 1) =~= t.skip(kt - 1));
        } else {
            assert(s.skip(0) =~= s);
        }
    }
}

/// The second step of storing a frame, once the capacity of the volume is
/// known: a frame larger than the quota is refused; otherwise the oldest
/// files are evicted until the rest and the frame fit the quota.
pub fn place(pending: PendingShot, capacity: u64) -> (r: Result<Placement, SnapshotError>)
    requires
        total_size(entries_view(pending.entries@)) <= u64::MAX,
    ensures
        ({
            let es = entries_view(pending.entries@);
            let need = pending.data@.len() as int;
            let k = evict_count(es, need, quota(capacity));
            &&& (r is Err <==> need > quota(capacity))
            &&& (r is Err ==> r == Err::<Placement, SnapshotError>(SnapshotError::QuotaExceeded))
            &&& (r matches Ok(p) ==> {
                &&& p.data@ == pending.data@
                &&& k <= es.len()
                &&& names_of(p.evict@) == entry_names(es.take(k as int))
                &&& total_size(es.skip(k as int)) + need <= quota(capacity)
                &&& p.file_name@ == shot_name(pending.id)
                &&& p.temp_name@ == temp_name(pending.id)
            })
        }),
{
    let limit = capacity / 20;
    let need = pending.data.len() as u64;
    if need > limit {
        return Err(SnapshotError::QuotaExceeded);
    }
    let ghost es = entries_view(pending.entries@);
    let count = pending.entries.len();
    let mut used = match total_size_of(&pending.entries) {
        Some(t) => t,
        None => 0,
    };
    let mut evict: Vec<String> = Vec::new();
    let mut k: usize = 0;
    assert(names_of(evict@) =~= entry_names(es.take(0)));
    assert(es.skip(0) =~= es);
    while used.saturating_add(need) > limit
        invariant
            es == entries_view(pending.entries@),
            es.len() == count,
            k <= es.len(),
            need <= limit,
            limit == quota(capacity),
            need == pending.data@.len(),
            used == total_size(es.skip(k as int)),
            evict_count(es, need as int, limit as int) == k + evict_count(es.skip(k as int), need as int, limit as int),
            names_of(evict@) == entry_names(es.take(k as int)),
        decreases es.len() - k,
    {
        proof {
            if k == es.len() {
                assert(es.skip(k as int).len() == 0);
            }
            lemma_total_size_skip(es, k as int);
            assert(k < es.len());
            lemma_total_size_nonneg(es.skip(k + 1));
            assert(es.skip(k as int).drop_first() =~= es.skip(k + 1));
        }
        let e = &pending.entries[k];
        let ghost before = evict@;
        let name = e.name.clone();
        assert(name@ == es[k as int].1);
        evict.push(name);
        assert(evict@ == before.push(name));
        used = used - e.size;
        assert(names_of(evict@) =~= names_of(before).push(name@));
        assert(entry_names(es.take(k + 1)) =~= entry_names(es.take(k as int)).push(es[k as int].1));
        k = k + 1;
    }
    Ok(Placement {
        evict,
        data: pending.data,
        file_name: shot_file_name(pending.id),
        temp_name: temp_file_name(pending.id),
    })
}

} // verus!
