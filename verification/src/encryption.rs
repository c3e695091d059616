//! Hiding the content of datagrams.
use vstd::prelude::*;
use vstd::string::*;

verus! {

/// An agreed way of hiding datagrams: both ends combine each byte with a byte of the same key, by
/// exclusive or, going round the key as often as needed.
#[derive(Debug)]
pub struct Encryption {
    key: Vec<u8>,
}

/// The letters `xor:`.
pub open spec fn xor_prefix() -> Seq<u8> {
    seq![0x78, 0x6f, 0x72, 0x3a]
}

/// Each byte of `data` combined with a byte of `key`.
pub open spec fn masked(key: Seq<u8>, data: Seq<u8>) -> Seq<u8> {
    Seq::new(data.len(), |i: int| data[i] ^ key[i % key.len() as int])
}

impl View for Encryption {
    type V = Seq<u8>;

    closed spec fn view(&self) -> Seq<u8> {
        self.key@
    }
}

impl Encryption {
    #[verifier::type_invariant]
    closed spec fn wf(self) -> bool {
        self.key@.len() > 0
    }

    /// Reads what names an encryption: `xor:` and the key. Nothing else names one, nor does an
    /// empty key.
    pub fn from(text: &str) -> (r: Option<Encryption>)
        ensures
            r is Some <==> text.spec_bytes().len() > 4 && text.spec_bytes().take(4) == xor_prefix(),
            r is Some <==> text.spec_bytes().len() > 4 && text.spec_bytes()[0] == 'x' as u8
                && text.spec_bytes()[1] == 'o' as u8 && text.spec_bytes()[2] == 'r' as u8
                && text.spec_bytes()[3] == ':' as u8,
            r matches Some(encryption) ==> encryption@ == text.spec_bytes().skip(4),
            r matches Some(encryption) ==> encryption@.len() > 0,
    {
        let bytes = text.as_bytes();
        if bytes.len() <= 4 {
            return None;
        }
        assert(bytes@.take(4) == xor_prefix() <==> bytes@[0] == 0x78 && bytes@[1] == 0x6f
            && bytes@[2] == 0x72 && bytes@[3] == 0x3a) by {
            if bytes@.take(4) == xor_prefix() {
                assert(bytes@.take(4)[0] == 0x78);
                assert(bytes@.take(4)[1] == 0x6f);
                assert(bytes@.take(4)[2] == 0x72);
                assert(bytes@.take(4)[3] == 0x3a);
            } else {
                assert(!(bytes@.take(4) =~= xor_prefix()));
            }
        }
        if bytes[0] != 0x78 || bytes[1] != 0x6f || bytes[2] != 0x72 || bytes[3] != 0x3a {
            return None;
        }
        let key: Vec<u8> = vstd::slice::slice_to_vec(
            vstd::slice::slice_subrange(bytes, 4, bytes.len()),
        );
        assert(key@ =~= text.spec_bytes().skip(4));
        Some(Encryption { key })
    }

    /// Hides a datagram.
    pub fn encrypt(&self, data: &mut [u8])
        ensures
            final(data)@ == masked(self@, old(data)@),
            final(data)@.len() == old(data)@.len(),
            self@.len() > 0,
            forall|i: int|
                0 <= i < old(data)@.len() ==> (#[trigger] final(data)@[i]) ^ old(data)@[i]
                    == self@[i % self@.len() as int],
    {
        proof {
            use_type_invariant(self);
        }
        let mut i: usize = 0;
        while i < data.len()
            invariant
                i <= data@.len(),
                self.key@.len() > 0,
                data@.len() == old(data)@.len(),
                forall|j: int|
                    0 <= j < i ==> #[trigger] data@[j] == old(data)@[j] ^ self.key@[j
                        % self.key@.len() as int],
                forall|j: int| i <= j < data@.len() ==> #[trigger] data@[j] == old(data)@[j],
            decreases data@.len() - i,
        {
            data[i] = data[i] ^ self.key[i % self.key.len()];
            i = i + 1;
        }
        assert(data@ =~= masked(self@, old(data)@));
        proof {
            assert forall|j: int| 0 <= j < old(data)@.len() implies (#[trigger] data@[j]) ^ old(
                data,
            )@[j] == self@[j % self@.len() as int] by {
                law_every_byte_is_hidden(self@, old(data)@, j);
            }
        }
    }

    /// Shows a datagram that was hidden.
    pub fn decrypt(&self, data: &mut [u8])
        ensures
            final(data)@ == masked(self@, old(data)@),
            final(data)@.len() == old(data)@.len(),
            self@.len() > 0,
            forall|i: int|
                0 <= i < old(data)@.len() ==> (#[trigger] final(data)@[i]) ^ old(data)@[i]
                    == self@[i % self@.len() as int],
    {
        self.encrypt(data);
    }
}

/// Every byte of a datagram, to the last, is combined with its byte of the key, going round the key:
/// the byte after and the byte before differ by just that. So a byte stays as it was only where that
/// byte of the key is 0.
pub proof fn law_every_byte_is_hidden(key: Seq<u8>, data: Seq<u8>, i: int)
    requires
        0 <= i < data.len(),
    ensures
        masked(key, data).len() == data.len(),
        masked(key, data)[i] ^ data[i] == key[i % key.len() as int],
        masked(key, data)[i] == data[i] <==> key[i % key.len() as int] == 0,
{
    let (a, b) = (data[i], key[i % key.len() as int]);
    assert((a ^ b) ^ a == b) by (bit_vector);
    assert(a ^ b == a <==> b == 0) by (bit_vector);
}

/// What was hidden with a key is shown with the same key.
pub proof fn law_decrypt_undoes_encrypt(key: Seq<u8>, data: Seq<u8>)
    ensures
        masked(key, masked(key, data)) == data,
{
    let twice = masked(key, masked(key, data));
    assert forall|i: int| 0 <= i < data.len() implies #[trigger] twice[i] == data[i] by {
        let (a, b) = (data[i], key[i % key.len() as int]);
        assert((a ^ b) ^ b == a) by (bit_vector);
    }
    assert(twice =~= data);
}

} // verus!
