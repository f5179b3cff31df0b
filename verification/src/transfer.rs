//! Sending a file in sealed chunks, and putting it together again.

use crate::crypto;
use crate::crypto::CryptoError;
use crate::path;
use crate::peers::Peer;
use crate::protocol;
use crate::protocol::{EventView, Packet, PacketView};
use vstd::prelude::*;
use vstd::string::*;

verus! {

broadcast use vstd::string::group_string_axioms;

/// How many bytes of a file are sent at a time.
pub const FILE_CHUNK: usize = 49_152;

/// Why a file was not sent.
#[derive(Clone, Copy, Debug, PartialEq, Eq, Structural)]
pub enum SendError {
    /// The path does not lead to a regular file.
    NotAFile,
    /// A chunk could not be sealed.
    Crypto(CryptoError),
}

impl SendError {
    /// The text that `message` gives.
    pub open spec fn message_of(self) -> Seq<char> {
        match self {
            SendError::NotAFile => "not a regular file"@,
            SendError::Crypto(e) => e.message_of(),
        }
    }

    /// The error in words.
    pub fn message(&self) -> (text: String)
        ensures
            text@ == self.message_of(),
    {
        match self {
            SendError::NotAFile => "not a regular file".to_owned(),
            SendError::Crypto(e) => e.message(),
        }
    }
}

// ---------------------------------------------------------------------------
// Sending
// ---------------------------------------------------------------------------

/// In how many chunks a file of `size` bytes is sent: as many as hold it, and
/// one for an empty file. Sizes are counted in the machine's words and wrap
/// around there.
pub open spec fn chunk_total_of(size: u64) -> u64 {
    let chunks = (size as usize).wrapping_add((FILE_CHUNK - 1) as usize) / FILE_CHUNK;
    if chunks == 0 {
        1
    } else {
        chunks as u64
    }
}

/// In how many chunks a file of `size` bytes is sent.
pub fn chunk_total(size: u64) -> (total: u64)
    ensures
        total == chunk_total_of(size),
{
    let chunks: usize = (size as usize).wrapping_add(FILE_CHUNK - 1) / FILE_CHUNK;
    if chunks == 0 {
        1
    } else {
        chunks as u64
    }
}

/// Whether bytes that were read from a file of `size` bytes are sent: the end of
/// the file is sent only where the file is empty.
pub open spec fn is_sent(size: u64, data: Seq<u8>) -> bool {
    data.len() > 0 || size == 0
}

/// A file on its way to a peer.
pub struct FileSender {
    /// Our id.
    pub from: String,
    /// The name that the file is sent under.
    pub name: String,
    pub size: u64,
    pub total: u64,
    /// The number of the next chunk.
    pub index: u64,
    /// Whether the end of the file was read.
    pub finished: bool,
    /// The key shared with the peer.
    pub key: [u8; 32],
    /// Our secret and the public key of the peer.
    pub parties: Ghost<(Seq<u8>, Seq<u8>)>,
}

/// What the sender does with bytes that were read from the file.
#[derive(Debug)]
pub enum SendStep {
    /// The packet is to be sent.
    Send(Packet),
    /// The file has ended: there is nothing to send.
    Stop,
}

impl FileSender {
    /// The key is the one that both sides agree on.
    pub open spec fn wf(&self) -> bool {
        let (secret, pubkey) = self.parties@;
        &&& self.key@ == crypto::shared_key_of(secret, pubkey)
        &&& forall|other: Seq<u8>|
            #![trigger crypto::public_key_of(other)]
            other.len() == 32 && pubkey == crypto::public_key_of(other) ==> self.key@
                == crypto::shared_key_of(other, crypto::public_key_of(secret))
    }

    /// Starts to send the file at `file_path`, of `size` bytes, to `peer`. It is
    /// sent under its own name, or as `file.bin` where that is not text.
    pub fn start(
        peer: &Peer,
        my_id: &str,
        my_secret: &[u8; 32],
        file_path: &[u8],
        is_file: bool,
        size: u64,
    ) -> (sender: Result<FileSender, SendError>)
        ensures
            sender is Ok <==> is_file,
            sender matches Err(e) ==> e == SendError::NotAFile,
            sender matches Ok(s) ==> {
                &&& s.wf()
                &&& s.from@ == my_id@
                &&& s.name@ == path::label_of(file_path@, "file.bin"@)
                &&& s.size == size
                &&& s.total == chunk_total_of(size)
                &&& s.index == 0
                &&& !s.finished
                &&& s.parties@ == (my_secret@, peer.pubkey@)
            },
    {
        if !is_file {
            return Err(SendError::NotAFile);
        }
        let key = crypto::shared_key(my_secret, &peer.pubkey);
        Ok(
            FileSender {
                from: my_id.to_owned(),
                name: path::label(file_path, "file.bin"),
                size,
                total: chunk_total(size),
                index: 0,
                finished: false,
                key,
                parties: Ghost((my_secret@, peer.pubkey@)),
            },
        )
    }

    /// Whether `packet` carries `data` as chunk `index` of the file: it opens to
    /// `data` under the shared key, and so reaches the peer.
    pub open spec fn carries(&self, packet: PacketView, index: int, data: Seq<u8>) -> bool {
        &&& packet matches PacketView::File { from, name, size, index: at, total, ciphertext }
        &&& from == self.from@
        &&& name == self.name@
        &&& size == self.size
        &&& at == index
        &&& total == self.total
        &&& crypto::opened_payload(self.key@, ciphertext) == Ok::<Seq<u8>, CryptoError>(data)
        &&& protocol::reaches_as(
            packet,
            self.parties@.1,
            self.from@,
            self.parties@.0,
            EventView::IncomingFile {
                from: self.from@,
                name: self.name@,
                size: self.size,
                index: at,
                total: self.total,
                data,
            },
        )
    }

    /// The data of the packets that the sender makes of a series of reads.
    pub open spec fn chunks_of(&self, reads: Seq<Seq<u8>>) -> Seq<Seq<u8>> {
        if self.finished {
            Seq::empty()
        } else {
            chunks_sent(self.size, self.total, self.index as int, reads)
        }
    }

    /// Whether the next chunk is to be read.
    pub open spec fn wants_chunk_of(&self) -> bool {
        !self.finished && self.index < self.total
    }

    /// Whether the next chunk is to be read.
    pub fn wants_chunk(&self) -> (wants: bool)
        ensures
            wants == self.wants_chunk_of(),
    {
        !self.finished && self.index < self.total
    }

    /// Takes what was read from the file. The end of the file stops the sender,
    /// but an empty file is sent as one empty chunk. The peer receives what was
    /// read.
    pub fn chunk_read(&mut self, data: &[u8]) -> (step: Result<SendStep, SendError>)
        requires
            old(self).wf(),
            old(self).wants_chunk_of(),
        ensures
            final(self).wf(),
            final(self).parties == old(self).parties,
            final(self).from == old(self).from,
            final(self).name == old(self).name,
            final(self).size == old(self).size,
            final(self).total == old(self).total,
            final(self).key == old(self).key,
            !is_sent(old(self).size, data@) ==> {
                &&& step matches Ok(SendStep::Stop)
                &&& final(self).finished
                &&& final(self).index == old(self).index
            },
            is_sent(old(self).size, data@) && data@.len() > crypto::MESSAGE_LIMIT ==> step == Err::<
                SendStep,
                SendError,
            >(SendError::Crypto(CryptoError::Encryption)) && *final(self) == *old(self),
            is_sent(old(self).size, data@) && data@.len() <= crypto::MESSAGE_LIMIT ==> {
                &&& step matches Ok(SendStep::Send(packet))
                &&& old(self).carries(packet@, old(self).index as int, data@)
                &&& final(self).index == old(self).index + 1
                &&& final(self).finished == (data@.len() == 0)
            },
    {
        if data.len() == 0 && self.size > 0 {
            self.finished = true;
            return Ok(SendStep::Stop);
        }
        match crypto::encrypt_bytes(&self.key, data) {
            Err(e) => Err(SendError::Crypto(e)),
            Ok(ciphertext) => {
                let packet = Packet::File {
                    from: self.from.clone(),
                    name: self.name.clone(),
                    size: self.size,
                    index: self.index,
                    total: self.total,
                    ciphertext,
                };
                self.index = self.index + 1;
                self.finished = data.len() == 0;
                Ok(SendStep::Send(packet))
            },
        }
    }

    /// Sends what a series of reads from the file gave, as far as the sender wants
    /// it: the packets carry the chunks one by one, in order. This fails where a
    /// chunk is too long to be sealed.
    pub fn reads_done(&mut self, reads: &Vec<Vec<u8>>) -> (packets: Result<Vec<Packet>, SendError>)
        requires
            old(self).wf(),
        ensures
            final(self).wf(),
            ({
                let sent = old(self).chunks_of(read_views(reads@));
                &&& packets is Ok <==> all_sealable(sent)
                &&& packets matches Err(e) ==> e == SendError::Crypto(CryptoError::Encryption)
                &&& packets matches Ok(list) ==> {
                    &&& list@.len() == sent.len()
                    &&& forall|j: int|
                        0 <= j < sent.len() ==> old(self).carries(
                            (#[trigger] list@[j])@,
                            old(self).index + j,
                            sent[j],
                        )
                    &&& final(self).index == old(self).index + sent.len()
                    &&& final(self).finished == (old(self).finished || reaches_end(
                        old(self).total,
                        old(self).index as int,
                        read_views(reads@),
                    ))
                }
            }),
            final(self).parties == old(self).parties,
            final(self).from == old(self).from,
            final(self).name == old(self).name,
            final(self).size == old(self).size,
            final(self).total == old(self).total,
            final(self).key == old(self).key,
    {
        let ghost views = read_views(reads@);
        let ghost first = self.index as int;
        let ghost sent = self.chunks_of(views);
        let ghost start = *self;
        let mut packets: Vec<Packet> = Vec::new();
        let mut i: usize = 0;
        assert(views.skip(0) =~= views);
        assert(sent.skip(0) =~= sent);
        while i < reads.len() && self.wants_chunk()
            invariant
                i <= reads@.len(),
                views == read_views(reads@),
                start == *old(self),
                sent == start.chunks_of(views),
                self.wf(),
                start.from == self.from && start.name == self.name && start.size == self.size
                    && start.total == self.total && start.key == self.key && start.parties
                    == self.parties,
                first == start.index,
                packets@.len() <= sent.len(),
                self.index == first + packets@.len(),
                forall|j: int|
                    0 <= j < packets@.len() ==> start.carries(
                        (#[trigger] packets@[j])@,
                        first + j,
                        sent[j],
                    ),
                forall|j: int|
                    0 <= j < packets@.len() ==> (#[trigger] sent[j]).len()
                        <= crypto::MESSAGE_LIMIT,
                self.finished ==> sent.len() == packets@.len(),
                self.finished ==> start.finished || reaches_end(start.total, first, views),
                !self.finished ==> !start.finished && reaches_end(start.total, first, views)
                    == reaches_end(self.total, self.index as int, views.skip(i as int)),
                !self.finished ==> sent.skip(packets@.len() as int) == chunks_sent(
                    self.size,
                    self.total,
                    self.index as int,
                    views.skip(i as int),
                ),
            decreases reads@.len() - i,
        {
            let ghost rest = views.skip(i as int);
            let ghost at = packets@.len() as int;
            assert(rest[0] == reads@[i as int]@);
            assert(rest.drop_first() =~= views.skip(i + 1));
            match self.chunk_read(reads[i].as_slice()) {
                Err(e) => {
                    assert(sent.skip(at)[0] == reads@[i as int]@);
                    assert(sent[at] == reads@[i as int]@);
                    assert(!all_sealable(sent));
                    return Err(e);
                },
                Ok(SendStep::Stop) => {
                    assert(sent.skip(at).len() == 0);
                },
                Ok(SendStep::Send(packet)) => {
                    assert(sent.skip(at)[0] == reads@[i as int]@);
                    assert(sent[at] == reads@[i as int]@);
                    packets.push(packet);
                    assert(sent.skip(at + 1) =~= sent.skip(at).drop_first());
                    if self.finished {
                        assert(sent.skip(at).len() == 1);
                    } else {
                        assert(sent.skip(at).drop_first() =~= chunks_sent(
                            self.size,
                            self.total,
                            self.index as int,
                            rest.drop_first(),
                        ));
                    }
                },
            }
            i += 1;
        }
        proof {
            if !self.finished {
                assert(chunks_sent(
                    self.size,
                    self.total,
                    self.index as int,
                    views.skip(i as int),
                ).len() == 0);
            }
            assert(packets@.len() == sent.len());
        }
        Ok(packets)
    }
}

/// What a series of reads gave.
pub open spec fn read_views(reads: Seq<Vec<u8>>) -> Seq<Seq<u8>> {
    reads.map_values(|r: Vec<u8>| r@)
}

/// Whether a series of reads, from chunk `index` on, comes to the end of the file
/// while chunks are still wanted: whether it gives nothing there.
pub open spec fn reaches_end(total: u64, index: int, reads: Seq<Seq<u8>>) -> bool
    decreases reads.len(),
{
    reads.len() > 0 && index < total && (reads[0].len() == 0 || reaches_end(
        total,
        index + 1,
        reads.drop_first(),
    ))
}

/// Whether no chunk is too long to be sealed.
pub open spec fn all_sealable(chunks: Seq<Seq<u8>>) -> bool {
    forall|i: int| 0 <= i < chunks.len() ==> (#[trigger] chunks[i]).len() <= crypto::MESSAGE_LIMIT
}

// ---------------------------------------------------------------------------
// Receiving
// ---------------------------------------------------------------------------

/// A file that is arriving.
#[derive(Debug)]
pub struct IncomingFile {
    /// Where it is stored.
    pub path: Vec<u8>,
    /// Its size, by its first chunk.
    pub size: u64,
    /// The number of its chunks, by its first chunk.
    pub total: u64,
    /// How many bytes have arrived.
    pub received: u64,
}

/// What is known of a file that is arriving.
#[verifier::ext_equal]
pub struct IncomingView {
    pub path: Seq<u8>,
    pub size: u64,
    pub total: u64,
    pub received: u64,
}

impl View for IncomingFile {
    type V = IncomingView;

    open spec fn view(&self) -> IncomingView {
        IncomingView {
            path: self.path@,
            size: self.size,
            total: self.total,
            received: self.received,
        }
    }
}

impl IncomingView {
    /// The file after a chunk of `len` bytes. The count wraps around.
    pub open spec fn with_chunk(self, len: nat) -> IncomingView {
        IncomingView { received: self.received.wrapping_add(len as u64), ..self }
    }

    /// Whether the file is complete once chunk `index` has arrived: all its
    /// bytes have arrived, or the chunk is the last. Numbers wrap around.
    pub open spec fn is_complete(self, index: u64) -> bool {
        self.received >= self.size || index.wrapping_add(1) >= self.total
    }
}

/// The key under which a file from `from` named `name` is known.
pub open spec fn transfer_key_of(from: Seq<char>, name: Seq<char>) -> Seq<char> {
    from + ":"@ + name
}

/// The key under which a file from `from` named `name` is known.
pub fn transfer_key(from: &str, name: &str) -> (key: String)
    ensures
        key@ == transfer_key_of(from@, name@),
{
    let mut key = from.to_owned();
    key.append(":");
    key.append(name);
    key
}

impl IncomingFile {
    /// A file of which nothing has arrived.
    pub fn start(path: Vec<u8>, size: u64, total: u64) -> (file: Self)
        ensures
            file@ == (IncomingView { path: path@, size, total, received: 0 }),
    {
        IncomingFile { path, size, total, received: 0 }
    }

    /// Counts chunk `index`, of `len` bytes, and says whether the file is
    /// complete.
    pub fn add_chunk(&mut self, index: u64, len: usize) -> (complete: bool)
        ensures
            final(self)@ == old(self)@.with_chunk(len as nat),
            complete == final(self)@.is_complete(index),
    {
        self.received = self.received.wrapping_add(len as u64);
        self.received >= self.size || index.wrapping_add(1) >= self.total
    }
}

// ---------------------------------------------------------------------------
// Laws
// ---------------------------------------------------------------------------

/// What the sender makes of a series of reads from the file, from chunk `index`
/// on: the data of the packets that it sends.
pub open spec fn chunks_sent(size: u64, total: u64, index: int, reads: Seq<Seq<u8>>) -> Seq<Seq<u8>>
    decreases reads.len(),
{
    if reads.len() == 0 || index >= total || !is_sent(size, reads[0]) {
        Seq::empty()
    } else if reads[0].len() == 0 {
        seq![reads[0]]
    } else {
        seq![reads[0]] + chunks_sent(size, total, index + 1, reads.drop_first())
    }
}

/// The bytes of all chunks, one behind the other.
pub open spec fn all_bytes(chunks: Seq<Seq<u8>>) -> Seq<u8>
    decreases chunks.len(),
{
    if chunks.len() == 0 {
        Seq::empty()
    } else {
        chunks[0] + all_bytes(chunks.drop_first())
    }
}

/// What full reads give of a file that holds `content`, from byte `at` on: a
/// chunk at a time, and at the end of the file nothing.
pub open spec fn full_reads(content: Seq<u8>, at: int) -> Seq<Seq<u8>>
    decreases content.len() - at,
    when 0 <= at
{
    if at + FILE_CHUNK >= content.len() {
        if at >= content.len() {
            seq![Seq::empty()]
        } else {
            seq![content.skip(at), Seq::empty()]
        }
    } else {
        seq![content.subrange(at, at + FILE_CHUNK)] + full_reads(content, at + FILE_CHUNK)
    }
}

/// The chunks hold the file, and no fewer chunks would: their number is the size
/// divided by the size of a chunk, rounded up, and one for an empty file.
pub proof fn law_chunks_hold_file(size: u64)
    requires
        size + FILE_CHUNK - 1 <= usize::MAX,
    ensures
        chunk_total_of(size) >= 1,
        chunk_total_of(size) * FILE_CHUNK >= size,
        chunk_total_of(size) > 1 ==> (chunk_total_of(size) - 1) * FILE_CHUNK < size,
        size == 0 ==> chunk_total_of(size) == 1,
{
    let n = size + FILE_CHUNK - 1;
    assert((size as usize).wrapping_add((FILE_CHUNK - 1) as usize) == n);
    assert(chunk_total_of(size) == if n / FILE_CHUNK as int == 0 { 1 } else { n / FILE_CHUNK as int });
}

proof fn lemma_full_reads_are_sent(content: Seq<u8>, total: u64, index: int)
    requires
        content.len() <= u64::MAX,
        0 <= index < total,
        total * FILE_CHUNK >= content.len(),
        index * FILE_CHUNK < content.len(),
        (total - 1) * FILE_CHUNK < content.len(),
    ensures
        all_bytes(
            chunks_sent(
                content.len() as u64,
                total,
                index,
                full_reads(content, index * FILE_CHUNK),
            ),
        ) == content.skip(index * FILE_CHUNK),
        chunks_sent(
            content.len() as u64,
            total,
            index,
            full_reads(content, index * FILE_CHUNK),
        ).len() == total - index,
    decreases total - index,
{
    let at = index * FILE_CHUNK;
    let size = content.len() as u64;
    let reads = full_reads(content, at);
    if at + FILE_CHUNK >= content.len() {
        assert(index == total - 1);
        assert(reads.drop_first() =~= seq![Seq::<u8>::empty()]);
        let rest = chunks_sent(size, total, index + 1, reads.drop_first());
        assert(rest =~= Seq::<Seq<u8>>::empty());
        let sent = chunks_sent(size, total, index, reads);
        assert(sent =~= seq![content.skip(at)]);
        assert(sent.drop_first() =~= Seq::<Seq<u8>>::empty());
        assert(all_bytes(sent.drop_first()) =~= Seq::<u8>::empty());
        assert(all_bytes(sent) =~= content.skip(at));
    } else {
        assert((index + 1) * FILE_CHUNK == at + FILE_CHUNK);
        assert(index + 1 < total);
        lemma_full_reads_are_sent(content, total, index + 1);
        let rest_reads = full_reads(content, at + FILE_CHUNK);
        assert(reads.drop_first() =~= rest_reads);
        let rest = chunks_sent(size, total, index + 1, rest_reads);
        let first = content.subrange(at, at + FILE_CHUNK);
        let sent = chunks_sent(size, total, index, reads);
        assert(sent =~= seq![first] + rest);
        assert(sent.drop_first() =~= rest);
        assert(all_bytes(sent) =~= content.skip(at));
    }
}

/// How long the chunks are that full reads make of a file that is not empty: all but
/// the last are full, and the last holds the rest.
pub proof fn lemma_sent_lengths(content: Seq<u8>, total: u64, index: int)
    requires
        content.len() <= u64::MAX,
        0 <= index < total,
        total * FILE_CHUNK >= content.len(),
        (total - 1) * FILE_CHUNK < content.len(),
    ensures
        ({
            let sent = chunks_sent(
                content.len() as u64,
                total,
                index,
                full_reads(content, index * FILE_CHUNK),
            );
            &&& sent.len() == total - index
            &&& forall|j: int|
                0 <= j < sent.len() ==> (#[trigger] sent[j]).len() == (if index + j + 1 < total {
                    FILE_CHUNK as int
                } else {
                    content.len() - (index + j) * FILE_CHUNK
                })
        }),
    decreases total - index,
{
    let at = index * FILE_CHUNK;
    let size = content.len() as u64;
    assert(at < content.len());
    let reads = full_reads(content, at);
    let sent = chunks_sent(size, total, index, reads);
    let rest = chunks_sent(size, total, index + 1, reads.drop_first());
    assert(sent =~= seq![reads[0]] + rest);
    if at + FILE_CHUNK >= content.len() {
        assert(index == total - 1);
        assert(rest =~= Seq::<Seq<u8>>::empty());
    } else {
        assert((index + 1) * FILE_CHUNK == at + FILE_CHUNK);
        assert(index + 1 < total);
        assert(reads.drop_first() =~= full_reads(content, at + FILE_CHUNK));
        lemma_sent_lengths(content, total, index + 1);
        assert forall|j: int| 0 <= j < sent.len() implies (#[trigger] sent[j]).len() == (if index + j
            + 1 < total {
            FILE_CHUNK as int
        } else {
            content.len() - (index + j) * FILE_CHUNK
        }) by {
            if j > 0 {
                assert(sent[j] == rest[j - 1]);
                assert(index + 1 + (j - 1) == index + j);
            }
        }
    }
}

/// Where every read but the last fills its chunk, the chunks that are sent are as
/// many as announced and hold the whole file.
pub proof fn law_whole_file_is_sent(content: Seq<u8>)
    requires
        content.len() + FILE_CHUNK - 1 <= usize::MAX,
        content.len() <= u64::MAX,
    ensures
        ({
            let size = content.len() as u64;
            let sent = chunks_sent(size, chunk_total_of(size), 0, full_reads(content, 0));
            &&& all_bytes(sent) == content
            &&& sent.len() == chunk_total_of(size)
        }),
{
    let size = content.len() as u64;
    law_chunks_hold_file(size);
    let total = chunk_total_of(size);
    if size == 0 {
        let reads = full_reads(content, 0);
        assert(reads =~= seq![Seq::<u8>::empty()]);
        let sent = chunks_sent(size, total, 0, reads);
        assert(sent =~= seq![Seq::<u8>::empty()]);
        assert(sent.drop_first() =~= Seq::<Seq<u8>>::empty());
        assert(all_bytes(sent.drop_first()) =~= Seq::<u8>::empty());
        assert(all_bytes(sent) =~= content);
    } else {
        lemma_full_reads_are_sent(content, total, 0);
        assert(content.skip(0) =~= content);
    }
}

/// A file whose chunks arrive in order, all but the last of them full, is
/// complete with its last chunk and not before; its bytes have then all arrived.
pub proof fn law_file_is_complete_with_last_chunk(file: IncomingView, index: u64)
    requires
        file.size + FILE_CHUNK - 1 <= usize::MAX,
        file.total == chunk_total_of(file.size),
        index < file.total,
        file.received == index * FILE_CHUNK,
    ensures
        index + 1 < file.total ==> {
            &&& file.with_chunk(FILE_CHUNK as nat).received == (index + 1) * FILE_CHUNK
            &&& !file.with_chunk(FILE_CHUNK as nat).is_complete(index)
        },
        index + 1 == file.total ==> {
            let last = (file.size - index * FILE_CHUNK) as nat;
            &&& last <= FILE_CHUNK
            &&& file.with_chunk(last).received == file.size
            &&& file.with_chunk(last).is_complete(index)
        },
{
    law_chunks_hold_file(file.size);
}

/// What is read is sent, but for the end of the file; an empty file is sent though it
/// is all end.
pub proof fn law_reads_are_sent(size: u64, total: u64, index: int, data: Seq<u8>, rest: Seq<Seq<u8>>)
    requires
        0 <= index < total,
    ensures
        data.len() > 0 ==> chunks_sent(size, total, index, seq![data] + rest) == seq![data]
            + chunks_sent(size, total, index + 1, rest),
        data.len() == 0 && size > 0 ==> chunks_sent(size, total, index, seq![data] + rest).len()
            == 0,
        data.len() == 0 && size == 0 ==> chunks_sent(size, total, index, seq![data] + rest)
            == seq![data],
        chunks_sent(size, total, total as int, rest).len() == 0,
{
    let reads = seq![data] + rest;
    assert(reads[0] == data);
    assert(reads.drop_first() =~= rest);
}

/// A packet of a file names its sender, the file, its size, its number of chunks and
/// its own number, and whoever it is for receives just that data in it.
pub proof fn law_packet_carries_chunk(
    sender: FileSender,
    packet: PacketView,
    index: int,
    data: Seq<u8>,
)
    requires
        sender.wf(),
        sender.carries(packet, index, data),
    ensures
        packet matches PacketView::File { from, name, size, index: at, total, ciphertext } && from
            == sender.from@ && name == sender.name@ && size == sender.size && at == index && total
            == sender.total && crypto::opened_payload(
            crypto::shared_key_of(sender.parties@.0, sender.parties@.1),
            ciphertext,
        ) == Ok::<Seq<u8>, CryptoError>(data),
{
}

/// Chunks add up, and a file is complete once its bytes have arrived or its last chunk
/// has; where it is stored and what was announced of it never change.
pub proof fn law_chunks_add_up(file: IncomingView, index: u64, len: nat)
    requires
        file.received + len <= u64::MAX,
        index < u64::MAX,
    ensures
        file.with_chunk(len).received == file.received + len,
        file.with_chunk(len).path == file.path,
        file.with_chunk(len).size == file.size,
        file.with_chunk(len).total == file.total,
        file.is_complete(index) <==> file.received >= file.size || index + 1 >= file.total,
{
}

/// A transfer is known by its sender and its name: two transfers of one sender are
/// known alike exactly where the names are alike, and two of one name exactly where the
/// senders are.
pub proof fn law_transfers_are_told_apart(
    from: Seq<char>,
    name: Seq<char>,
    other_from: Seq<char>,
    other_name: Seq<char>,
)
    ensures
        transfer_key_of(from, name) == from + seq![':'] + name,
        transfer_key_of(from, name) == transfer_key_of(from, other_name) <==> name == other_name,
        transfer_key_of(from, name) == transfer_key_of(other_from, name) <==> from == other_from,
{
    reveal_strlit(":");
    assert(":"@ =~= seq![':']);
    let a = transfer_key_of(from, name);
    let b = transfer_key_of(from, other_name);
    let c = transfer_key_of(other_from, name);
    assert(a.skip(from.len() as int + 1) =~= name);
    assert(b.skip(from.len() as int + 1) =~= other_name);
    assert(a.take(a.len() - name.len() - 1) =~= from);
    assert(c.take(c.len() - name.len() - 1) =~= other_from);
}

} // verus!
