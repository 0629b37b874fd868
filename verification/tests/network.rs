use creature_simulator::network::NeuralNet;

#[test]
fn genome_length_formula() {
    // hidden*input + hidden + output*hidden + output
    assert_eq!(NeuralNet::<f32>::genome_len(7, 8, 1), 8 * 7 + 8 + 8 + 1);
    assert_eq!(NeuralNet::<f32>::genome_len(0, 0, 0), 0);
    assert_eq!(NeuralNet::<f32>::genome_len(3, 0, 2), 2);
}

#[test]
fn genome_is_unpacked_layer_by_layer() {
    let genome: Vec<f32> = (0..NeuralNet::<f32>::genome_len(2, 3, 1)).map(|v| v as f32).collect();
    assert_eq!(genome.len(), 13);
    let net = NeuralNet::from_genome(&genome, 2, 3, 1).expect("genome fits");
    assert_eq!(net.input_size(), 2);
    assert_eq!(net.hidden_size(), 3);
    assert_eq!(net.output_size(), 1);
    assert_eq!(net.w1(), &vec![0.0, 1.0, 2.0, 3.0, 4.0, 5.0]);
    assert_eq!(net.b1(), &vec![6.0, 7.0, 8.0]);
    assert_eq!(net.w2(), &vec![9.0, 10.0, 11.0]);
    assert_eq!(net.b2(), &vec![12.0]);
    let mut repacked = net.w1().clone();
    repacked.extend(net.b1());
    repacked.extend(net.w2());
    repacked.extend(net.b2());
    assert_eq!(repacked, genome);
}

#[test]
fn genome_of_wrong_length_is_refused() {
    let genome = vec![0.5f32; 3];
    let err = NeuralNet::from_genome(&genome, 7, 8, 1).err().expect("wrong length");
    assert_eq!(err, "genome length 3 does not match expected 73 for topology 7->8->1");
    let longer = vec![0.5f32; 74];
    let err = NeuralNet::from_genome(&longer, 7, 8, 1).err().expect("wrong length");
    assert_eq!(err, "genome length 74 does not match expected 73 for topology 7->8->1");
}

#[test]
fn empty_topology_takes_an_empty_genome() {
    let genome: Vec<f32> = Vec::new();
    let net = NeuralNet::from_genome(&genome, 5, 0, 0).expect("empty genome fits");
    assert!(net.w1().is_empty() && net.b2().is_empty());
    let err = NeuralNet::from_genome(&[1.0f32], 5, 0, 0).err().expect("too long");
    assert_eq!(err, "genome length 1 does not match expected 0 for topology 5->0->0");
}

#[test]
fn checked_genome_length() {
    assert_eq!(NeuralNet::<f32>::checked_genome_len(7, 8, 1), Some(73));
    assert_eq!(NeuralNet::<f32>::checked_genome_len(usize::MAX, 2, 0), None);
    assert_eq!(NeuralNet::<f32>::checked_genome_len(0, 0, usize::MAX), Some(usize::MAX));
    assert_eq!(NeuralNet::<f32>::checked_genome_len(0, 1, usize::MAX), None);
}
